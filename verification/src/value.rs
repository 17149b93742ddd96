//! Values of the types of a schema, and their wire format.
//!
//! A value of a sum type is written as the discriminator of its constructor
//! and then its fields in their order. Reading one takes the schema: the
//! discriminator selects the constructor among those of the expected type,
//! and the constructor says what fields follow.

use crate::ast::{id_index, Ast, AstView, FieldDef, FieldView, TypeDef};
use crate::error::{Error, ErrorView};
use crate::le::{int_bytes, int_of, lemma_fixed_widths, lemma_int_round_trip, long_bytes, word_bytes};
use crate::reader::Reader;
use crate::types::{Primitive, ResolvedType, ResolvedView};
use crate::wire::{
    agrees, length_word, shifted, wire_length, wrote, Double, Parsed, RoundTrip, TLType, VECTOR_ID,
};
use crate::writer::{fitted, lemma_fitted_both, lemma_fitted_prefix, Writer};
use vstd::prelude::*;
use vstd::string::*;
use vstd::utf8::encode_utf8;

verus! {

/// A value of a type of a schema.
#[derive(Debug, PartialEq, Eq)]
pub enum Value {
    Int(i32),
    Long(i64),
    /// A 64-bit IEEE-754 number, held as its bit pattern.
    Double(u64),
    Bytes(Vec<u8>),
    Text(String),
    /// A sequence of values of one type.
    Vector(Vec<Value>),
    /// A value of a sum type: the discriminator of its constructor, and the
    /// fields in their order.
    Compound { id: i32, fields: Vec<Value> },
}

/// A [`Value`] as a mathematical value.
pub enum ValueView {
    Int(i32),
    Long(i64),
    Double(u64),
    Bytes(Seq<u8>),
    Text(Seq<char>),
    Vector(Seq<ValueView>),
    Compound { id: i32, fields: Seq<ValueView> },
}

impl Value {
    /// The value as a mathematical value.
    pub open spec fn model(self) -> ValueView
        decreases self,
    {
        match self {
            Value::Int(x) => ValueView::Int(x),
            Value::Long(x) => ValueView::Long(x),
            Value::Double(x) => ValueView::Double(x),
            Value::Bytes(b) => ValueView::Bytes(b@),
            Value::Text(s) => ValueView::Text(s@),
            Value::Vector(vs) => ValueView::Vector(
                Seq::new(
                    vs@.len(),
                    |i: int|
                        if 0 <= i < vs@.len() {
                            vs@[i].model()
                        } else {
                            ValueView::Int(0)
                        },
                ),
            ),
            Value::Compound { id, fields } => ValueView::Compound {
                id,
                fields: Seq::new(
                    fields@.len(),
                    |i: int|
                        if 0 <= i < fields@.len() {
                            fields@[i].model()
                        } else {
                            ValueView::Int(0)
                        },
                ),
            },
        }
    }
}

impl DeepView for Value {
    type V = ValueView;

    open spec fn deep_view(&self) -> ValueView {
        self.model()
    }
}

/// The encodings of the first `n` of `vs`, one after the other.
pub open spec fn values_wire(vs: Seq<ValueView>, n: nat) -> Seq<u8>
    decreases vs, n,
{
    if n == 0 || n > vs.len() {
        Seq::empty()
    } else {
        values_wire(vs, (n - 1) as nat) + value_wire(vs[n - 1])
    }
}

/// The bytes that stand for `v`.
pub open spec fn value_wire(v: ValueView) -> Seq<u8>
    decreases v, 0nat,
{
    match v {
        ValueView::Int(x) => int_bytes(x),
        ValueView::Long(x) => long_bytes(x),
        ValueView::Double(x) => word_bytes(x),
        ValueView::Bytes(b) => <Vec<u8> as TLType>::wire(b),
        ValueView::Text(s) => <String as TLType>::wire(s),
        ValueView::Vector(vs) => int_bytes(VECTOR_ID) + int_bytes(length_word(vs.len()))
            + values_wire(vs, vs.len()),
        ValueView::Compound { id, fields } => int_bytes(id) + values_wire(fields, fields.len()),
    }
}

/// The kind that is reported where the values of `vs` from index `from` on
/// are written with room for only `room` bytes: that of the first value that
/// does not fit behind those before it.
pub open spec fn values_refusal(vs: Seq<ValueView>, from: int, room: nat) -> Seq<char>
    decreases vs, vs.len() - from,
{
    if from < 0 || from >= vs.len() {
        Seq::empty()
    } else if value_wire(vs[from]).len() > room {
        value_refusal(vs[from], room)
    } else {
        values_refusal(vs, from + 1, (room - value_wire(vs[from]).len()) as nat)
    }
}

/// The kind that is reported where `v` is written with room for only `room`
/// bytes, which are fewer than `v` has: that of the part of `v` at which the
/// room ends.
pub open spec fn value_refusal(v: ValueView, room: nat) -> Seq<char>
    decreases v, 0nat,
{
    match v {
        ValueView::Int(_) => "i32"@,
        ValueView::Long(_) => "i64"@,
        ValueView::Double(_) => "f64"@,
        ValueView::Bytes(b) => <Vec<u8> as TLType>::refusal(b, room),
        ValueView::Text(_) => "string"@,
        ValueView::Vector(vs) => if room < 8 {
            "i32"@
        } else {
            values_refusal(vs, 0, (room - 8) as nat)
        },
        ValueView::Compound { id, fields } => if room < 4 {
            "i32"@
        } else {
            values_refusal(fields, 0, (room - 4) as nat)
        },
    }
}

/// The encodings of the first values are the beginning of the encodings of
/// more of them.
pub proof fn lemma_values_wire_prefix(vs: Seq<ValueView>, m: nat, n: nat)
    requires
        m <= n <= vs.len(),
    ensures
        values_wire(vs, m).is_prefix_of(values_wire(vs, n)),
    decreases n - m,
{
    if m < n {
        lemma_values_wire_prefix(vs, m, (n - 1) as nat);
    }
}

/// The types of the fields, in their order.
pub open spec fn kinds_of(fields: Seq<FieldView>) -> Seq<ResolvedView> {
    Seq::new(fields.len(), |i: int| fields[i].kind)
}

/// `n` times the type `t`.
pub open spec fn repeated(t: ResolvedView, n: nat) -> Seq<ResolvedView> {
    Seq::new(n, |i: int| t)
}

/// `p` as the outcome for a sequence.
pub open spec fn as_vector(p: Parsed<Seq<ValueView>>) -> Parsed<ValueView> {
    match p {
        Parsed::Done { value, used } => Parsed::Done { value: ValueView::Vector(value), used },
        Parsed::Failed { kind, used, short } => Parsed::Failed { kind, used, short },
    }
}

/// `p` as the outcome for a value of the constructor with the discriminator
/// `id`.
pub open spec fn as_compound(id: i32, p: Parsed<Seq<ValueView>>) -> Parsed<ValueView> {
    match p {
        Parsed::Done { value, used } => Parsed::Done {
            value: ValueView::Compound { id, fields: value },
            used,
        },
        Parsed::Failed { kind, used, short } => Parsed::Failed { kind, used, short },
    }
}

/// What decoding values of the first `n` of `kinds` in a row makes of the
/// bytes `s`: it stops at the first value that fails.
///
/// No value consumes more than there is (`lemma_values_within`), so the
/// branch for that never applies.
pub open spec fn values_parse(ast: AstView, kinds: Seq<ResolvedView>, s: Seq<u8>, n: nat) -> Parsed<
    Seq<ValueView>,
>
    decreases s.len(), n + 1,
{
    if n == 0 {
        Parsed::Done { value: Seq::empty(), used: 0 }
    } else {
        match values_parse(ast, kinds, s, (n - 1) as nat) {
            Parsed::Failed { kind, used, short } => Parsed::Failed { kind, used, short },
            Parsed::Done { value: vs, used } => if used > s.len() {
                Parsed::Failed { kind: Seq::empty(), used, short: 0 }
            } else {
                match value_parse(ast, kinds[n - 1], s.skip(used as int)) {
                    Parsed::Failed { kind, used: more, short } => Parsed::Failed {
                        kind,
                        used: used + more,
                        short,
                    },
                    Parsed::Done { value: v, used: more } => Parsed::Done {
                        value: vs.push(v),
                        used: used + more,
                    },
                }
            },
        }
    }
}

/// What decoding a value of the type `t` makes of the bytes `s`.
///
/// A sequence opens with its discriminator and the number of its items. A
/// value of a sum type opens with the discriminator of its constructor, which
/// must be one of the constructors of the type; a discriminator that is none
/// of them fails under the name of the type, after its four bytes.
pub open spec fn value_parse(ast: AstView, t: ResolvedView, s: Seq<u8>) -> Parsed<ValueView>
    decreases s.len(), 0nat,
{
    match t {
        ResolvedView::Primitive(Primitive::Int) => match <i32 as TLType>::parse(s) {
            Parsed::Done { value, used } => Parsed::Done { value: ValueView::Int(value), used },
            Parsed::Failed { kind, used, short } => Parsed::Failed { kind, used, short },
        },
        ResolvedView::Primitive(Primitive::Long) => match <i64 as TLType>::parse(s) {
            Parsed::Done { value, used } => Parsed::Done { value: ValueView::Long(value), used },
            Parsed::Failed { kind, used, short } => Parsed::Failed { kind, used, short },
        },
        ResolvedView::Primitive(Primitive::Double) => match <Double as TLType>::parse(s) {
            Parsed::Done { value, used } => Parsed::Done { value: ValueView::Double(value), used },
            Parsed::Failed { kind, used, short } => Parsed::Failed { kind, used, short },
        },
        ResolvedView::Primitive(Primitive::Bytes) => match <Vec<u8> as TLType>::parse(s) {
            Parsed::Done { value, used } => Parsed::Done { value: ValueView::Bytes(value), used },
            Parsed::Failed { kind, used, short } => Parsed::Failed { kind, used, short },
        },
        ResolvedView::Primitive(Primitive::Text) => match <String as TLType>::parse(s) {
            Parsed::Done { value, used } => Parsed::Done { value: ValueView::Text(value), used },
            Parsed::Failed { kind, used, short } => Parsed::Failed { kind, used, short },
        },
        ResolvedView::Sequence(inner) => if s.len() < 4 {
            Parsed::Failed { kind: "i32"@, used: 0, short: (4 - s.len()) as nat }
        } else if int_of(s.take(4)) != VECTOR_ID {
            Parsed::Failed { kind: "vector"@, used: 4, short: 0 }
        } else if s.len() < 8 {
            Parsed::Failed { kind: "i32"@, used: 4, short: (8 - s.len()) as nat }
        } else {
            let n = int_of(s.skip(4).take(4));
            if n < 0 {
                Parsed::Failed { kind: "vector"@, used: 8, short: 0 }
            } else {
                as_vector(
                    shifted(values_parse(ast, repeated(*inner, n as nat), s.skip(8), n as nat), 8),
                )
            }
        },
        ResolvedView::Reference { namespace, name } => match ast.type_of(namespace, name) {
            None => Parsed::Failed { kind: name, used: 0, short: 0 },
            Some(td) => if s.len() < 4 {
                Parsed::Failed { kind: "i32"@, used: 0, short: (4 - s.len()) as nat }
            } else {
                let id = int_of(s.take(4));
                let at = id_index(td.constructors, id, 0);
                if 0 <= at < td.constructors.len() {
                    let fields = td.constructors[at].fields;
                    as_compound(
                        id,
                        shifted(values_parse(ast, kinds_of(fields), s.skip(4), fields.len()), 4),
                    )
                } else {
                    Parsed::Failed { kind: name, used: 4, short: 0 }
                }
            },
        },
    }
}

/// Whether `v` is a value of the type `t`, with every length inside it one
/// that can be written as a 32-bit signed integer.
pub open spec fn conforms(ast: AstView, t: ResolvedView, v: ValueView) -> bool
    decreases v,
{
    match (t, v) {
        (ResolvedView::Primitive(Primitive::Int), ValueView::Int(_)) => true,
        (ResolvedView::Primitive(Primitive::Long), ValueView::Long(_)) => true,
        (ResolvedView::Primitive(Primitive::Double), ValueView::Double(_)) => true,
        (ResolvedView::Primitive(Primitive::Bytes), ValueView::Bytes(b)) => b.len() <= i32::MAX,
        (ResolvedView::Primitive(Primitive::Text), ValueView::Text(s)) => encode_utf8(s).len()
            <= i32::MAX,
        (ResolvedView::Sequence(inner), ValueView::Vector(vs)) => {
            &&& vs.len() <= i32::MAX
            &&& forall|i: int| 0 <= i < vs.len() ==> conforms(ast, *inner, #[trigger] vs[i])
        },
        (ResolvedView::Reference { namespace, name }, ValueView::Compound { id, fields }) => {
            &&& ast.type_of(namespace, name) matches Some(td)
            &&& 0 <= id_index(td.constructors, id, 0) < td.constructors.len()
            &&& fields.len() == td.constructors[id_index(td.constructors, id, 0)].fields.len()
            &&& forall|i: int|
                0 <= i < fields.len() ==> conforms(
                    ast,
                    td.constructors[id_index(td.constructors, id, 0)].fields[i].kind,
                    #[trigger] fields[i],
                )
        },
        _ => false,
    }
}

/// Decoding as many values as were encoded, whatever follows them, yields the
/// values and consumes exactly their bytes.
pub proof fn lemma_values_round_trip(
    ast: AstView,
    kinds: Seq<ResolvedView>,
    vs: Seq<ValueView>,
    n: nat,
    rest: Seq<u8>,
)
    requires
        n <= vs.len(),
        forall|i: int| 0 <= i < n ==> conforms(ast, kinds[i], #[trigger] vs[i]),
    ensures
        values_parse(ast, kinds, values_wire(vs, n) + rest, n) == (Parsed::Done {
            value: vs.take(n as int),
            used: values_wire(vs, n).len(),
        }),
    decreases vs, n,
{
    let s = values_wire(vs, n) + rest;
    if n == 0 {
        assert(vs.take(0) =~= Seq::empty());
    } else {
        let last = vs[n - 1];
        let front = values_wire(vs, (n - 1) as nat);
        lemma_values_round_trip(ast, kinds, vs, (n - 1) as nat, value_wire(last) + rest);
        assert(s =~= front + (value_wire(last) + rest));
        assert(s.skip(front.len() as int) =~= value_wire(last) + rest);
        lemma_value_round_trip(ast, kinds[n - 1], last, rest);
        assert(vs.take(n - 1).push(last) =~= vs.take(n as int));
    }
}

/// Decoding the bytes of a value of the type `t`, whatever follows them,
/// yields the value and consumes exactly those bytes.
pub proof fn lemma_value_round_trip(ast: AstView, t: ResolvedView, v: ValueView, rest: Seq<u8>)
    requires
        conforms(ast, t, v),
    ensures
        value_parse(ast, t, value_wire(v) + rest) == (Parsed::Done {
            value: v,
            used: value_wire(v).len(),
        }),
    decreases v, 0nat,
{
    let s = value_wire(v) + rest;
    match v {
        ValueView::Int(x) => {
            <i32 as RoundTrip>::round_trip(x, rest);
        },
        ValueView::Long(x) => {
            <i64 as RoundTrip>::round_trip(x, rest);
        },
        ValueView::Double(x) => {
            <Double as RoundTrip>::round_trip(x, rest);
        },
        ValueView::Bytes(b) => {
            <Vec<u8> as RoundTrip>::round_trip(b, rest);
        },
        ValueView::Text(text) => {
            <String as RoundTrip>::round_trip(text, rest);
        },
        ValueView::Vector(vs) => {
            let inner = t->Sequence_0;
            let n = length_word(vs.len());
            let body = values_wire(vs, vs.len());
            lemma_fixed_widths(VECTOR_ID, 0, 0);
            lemma_fixed_widths(n, 0, 0);
            lemma_int_round_trip(VECTOR_ID);
            lemma_int_round_trip(n);
            assert(s.take(4) =~= int_bytes(VECTOR_ID));
            assert(s.skip(4).take(4) =~= int_bytes(n));
            assert(s.skip(8) =~= body + rest);
            lemma_values_round_trip(ast, repeated(*inner, vs.len()), vs, vs.len(), rest);
            assert(vs.take(vs.len() as int) =~= vs);
        },
        ValueView::Compound { id, fields } => {
            let td = ast.type_of(t->namespace, t->name)->Some_0;
            let at = id_index(td.constructors, id, 0);
            let body = values_wire(fields, fields.len());
            lemma_fixed_widths(id, 0, 0);
            lemma_int_round_trip(id);
            assert(s.take(4) =~= int_bytes(id));
            assert(s.skip(4) =~= body + rest);
            lemma_values_round_trip(
                ast,
                kinds_of(td.constructors[at].fields),
                fields,
                fields.len(),
                rest,
            );
            assert(fields.take(fields.len() as int) =~= fields);
        },
    }
}

/// Decoding values in a row never consumes more than there is.
pub proof fn lemma_values_within(ast: AstView, kinds: Seq<ResolvedView>, s: Seq<u8>, n: nat)
    ensures
        values_parse(ast, kinds, s, n).used() <= s.len(),
    decreases s.len(), n + 1,
{
    if n > 0 {
        lemma_values_within(ast, kinds, s, (n - 1) as nat);
        if let Parsed::Done { used, .. } = values_parse(ast, kinds, s, (n - 1) as nat) {
            lemma_value_within(ast, kinds[n - 1], s.skip(used as int));
        }
    }
}

/// Decoding a value never consumes more than there is.
pub proof fn lemma_value_within(ast: AstView, t: ResolvedView, s: Seq<u8>)
    ensures
        value_parse(ast, t, s).used() <= s.len(),
    decreases s.len(), 0nat,
{
    match t {
        ResolvedView::Primitive(_) => {
            <Vec<u8> as RoundTrip>::within(s);
            <String as RoundTrip>::within(s);
        },
        ResolvedView::Sequence(inner) => {
            if s.len() >= 8 && int_of(s.skip(4).take(4)) >= 0 {
                let n = int_of(s.skip(4).take(4)) as nat;
                lemma_values_within(ast, repeated(*inner, n), s.skip(8), n);
            }
        },
        ResolvedView::Reference { namespace, name } => {
            if let Some(td) = ast.type_of(namespace, name) {
                let at = id_index(td.constructors, int_of(s.take(4)), 0);
                if s.len() >= 4 && 0 <= at < td.constructors.len() {
                    let fields = td.constructors[at].fields;
                    lemma_values_within(ast, kinds_of(fields), s.skip(4), fields.len());
                }
            }
        },
    }
}

/// A discriminator that is none of the constructors of the expected type is
/// no value of the type: decoding fails under the name of the type after the
/// four bytes of the discriminator.
pub proof fn lemma_unknown_discriminator(
    ast: AstView,
    namespace: Seq<char>,
    name: Seq<char>,
    s: Seq<u8>,
)
    requires
        ast.type_of(namespace, name) is Some,
        s.len() >= 4,
        id_index(ast.type_of(namespace, name)->Some_0.constructors, int_of(s.take(4)), 0)
            == ast.type_of(namespace, name)->Some_0.constructors.len(),
    ensures
        value_parse(ast, ResolvedView::Reference { namespace, name }, s) == (Parsed::<
            ValueView,
        >::Failed { kind: name, used: 4, short: 0 }),
{
}

/// What a result of decoding a value stands for.
pub open spec fn seen_value(r: Result<Value, Error>) -> Result<ValueView, ErrorView> {
    match r {
        Ok(v) => Ok(v.model()),
        Err(e) => Err(e@),
    }
}

/// What a result of decoding values in a row stands for.
pub open spec fn seen_values(r: Result<Vec<Value>, Error>) -> Result<Seq<ValueView>, ErrorView> {
    match r {
        Ok(vs) => Ok(vs.deep_view()),
        Err(e) => Err(e@),
    }
}

/// The models of the values of `vs`, in their order.
pub open spec fn models(vs: Seq<Value>) -> Seq<ValueView> {
    Seq::new(vs.len(), |i: int| vs[i].model())
}

/// What values are decoded in a row: items of one type, or the fields of a
/// constructor.
enum Kinds<'a> {
    Items { kind: &'a ResolvedType, count: usize },
    Fields { fields: &'a Vec<FieldDef> },
}

impl<'a> Kinds<'a> {
    /// The types of the values, in their order.
    spec fn kinds(self) -> Seq<ResolvedView> {
        match self {
            Kinds::Items { kind, count } => repeated(kind@, count as nat),
            Kinds::Fields { fields } => Seq::new(fields@.len(), |i: int| fields@[i].kind@),
        }
    }

    /// How many values there are.
    fn len(&self) -> (n: usize)
        ensures
            n == self.kinds().len(),
    {
        match self {
            Kinds::Items { count, .. } => *count,
            Kinds::Fields { fields } => fields.len(),
        }
    }

    /// The type of the value at index `i`.
    fn kind(&self, i: usize) -> (t: &ResolvedType)
        requires
            i < self.kinds().len(),
        ensures
            t@ == self.kinds()[i as int],
    {
        match self {
            Kinds::Items { kind, .. } => kind,
            Kinds::Fields { fields } => &fields[i].kind,
        }
    }
}

/// Writes the bytes of the values of `vs`, one after the other, and stops at
/// the first for which `out` has no room.
fn serialize_all(vs: &Vec<Value>, out: &mut Writer) -> (r: Result<(), Error>)
    ensures
        wrote(
            *old(out),
            *final(out),
            values_wire(models(vs@), vs@.len()),
            values_refusal(models(vs@), 0, old(out).room()),
            r,
        ),
    decreases vs, 1nat,
{
    let ghost start = *out;
    let ghost room = out.room();
    let ghost all = models(vs@);
    let ghost whole = values_wire(all, all.len());
    let mut i: usize = 0;
    proof {
        out.lemma_within();
        assert(out.written() =~= start.written() + values_wire(all, 0));
    }
    while i < vs.len()
        invariant
            i <= vs@.len(),
            all == models(vs@),
            start == *old(out),
            room == start.room(),
            whole == values_wire(all, all.len()),
            out.limit() == start.limit(),
            out.written() == start.written() + values_wire(all, i as nat),
            values_wire(all, i as nat).len() + out.room() == room,
            values_refusal(all, 0, room) == values_refusal(all, i as int, out.room()),
        decreases vs.len() - i,
    {
        let ghost done = values_wire(all, i as nat);
        let ghost w = value_wire(all[i as int]);
        let ghost upto = values_wire(all, (i + 1) as nat);
        let ghost before = *out;
        proof {
            out.lemma_within();
            assert(upto == done + w);
        }
        match vs[i].serialize(out) {
            Ok(()) => {},
            Err(e) => {
                proof {
                    lemma_values_wire_prefix(all, (i + 1) as nat, all.len());
                    lemma_fitted_prefix(upto, whole, room);
                    lemma_fitted_both(done, w, room);
                    assert(out.written() =~= start.written() + fitted(whole, room));
                }
                return Err(e);
            },
        }
        proof {
            before.lemma_room_after(out, w);
            assert(out.written() =~= start.written() + upto);
        }
        i += 1;
    }
    Ok(())
}

impl Value {
    /// Writes the bytes of the value to `out`. Where `out` has no room for
    /// all of them, it is filled with their beginning and the call fails.
    pub fn serialize(&self, out: &mut Writer) -> (r: Result<(), Error>)
        ensures
            wrote(
                *old(out),
                *final(out),
                value_wire(self.model()),
                value_refusal(self.model(), old(out).room()),
                r,
            ),
        decreases self, 0nat,
    {
        let ghost start = *out;
        let ghost room = out.room();
        match self {
            Value::Int(x) => x.serialize(out),
            Value::Long(x) => x.serialize(out),
            Value::Double(x) => Double::from_bits(*x).serialize(out),
            Value::Bytes(b) => {
                b.serialize(out)
            },
            Value::Text(s) => s.serialize(out),
            Value::Vector(vs) => {
                let ghost id_bytes = int_bytes(VECTOR_ID);
                let ghost header = id_bytes + int_bytes(length_word(vs@.len()));
                let ghost body = values_wire(models(vs@), vs@.len());
                let ghost whole = header + body;
                proof {
                    assert(self.model()->Vector_0 =~= models(vs@));
                    lemma_fixed_widths(VECTOR_ID, 0, 0);
                    lemma_fixed_widths(length_word(vs@.len()), 0, 0);
                    assert(id_bytes.is_prefix_of(whole));
                    assert(header.is_prefix_of(whole));
                }
                match VECTOR_ID.serialize(out) {
                    Ok(()) => {},
                    Err(e) => {
                        proof {
                            lemma_fitted_prefix(id_bytes, whole, room);
                        }
                        return Err(e);
                    },
                }
                let ghost mid = *out;
                proof {
                    start.lemma_room_after(&mid, id_bytes);
                }
                match wire_length(vs.len()).serialize(out) {
                    Ok(()) => {},
                    Err(e) => {
                        proof {
                            lemma_fitted_both(id_bytes, int_bytes(length_word(vs@.len())), room);
                            lemma_fitted_prefix(header, whole, room);
                            assert(out.written() =~= start.written() + fitted(whole, room));
                        }
                        return Err(e);
                    },
                }
                proof {
                    mid.lemma_room_after(out, int_bytes(length_word(vs@.len())));
                    assert(out.written() =~= start.written() + header);
                }
                let r = serialize_all(vs, out);
                proof {
                    lemma_fitted_both(header, body, room);
                    assert(out.written() =~= start.written() + fitted(whole, room));
                }
                r
            },
            Value::Compound { id, fields } => {
                let ghost header = int_bytes(*id);
                let ghost body = values_wire(models(fields@), fields@.len());
                let ghost whole = header + body;
                proof {
                    assert(self.model()->fields =~= models(fields@));
                    lemma_fixed_widths(*id, 0, 0);
                    assert(header.is_prefix_of(whole));
                }
                match id.serialize(out) {
                    Ok(()) => {},
                    Err(e) => {
                        proof {
                            lemma_fitted_prefix(header, whole, room);
                        }
                        return Err(e);
                    },
                }
                proof {
                    start.lemma_room_after(out, header);
                }
                let r = serialize_all(fields, out);
                proof {
                    lemma_fitted_both(header, body, room);
                    assert(out.written() =~= start.written() + fitted(whole, room));
                }
                r
            },
        }
    }

    /// Decodes one value of the type `kind` from the bytes that `input` has
    /// left.
    pub fn deserialize(ast: &Ast, kind: &ResolvedType, input: &mut Reader) -> (r: Result<
        Value,
        Error,
    >)
        ensures
            agrees(
                *old(input),
                *final(input),
                value_parse(ast@, kind@, old(input).remaining()),
                seen_value(r),
            ),
        decreases old(input).remaining().len(), 0nat,
    {
        let ghost s = input.remaining();
        let ghost first = *input;
        match kind {
            ResolvedType::Primitive(Primitive::Int) => match i32::deserialize(input) {
                Ok(x) => Ok(Value::Int(x)),
                Err(e) => Err(e),
            },
            ResolvedType::Primitive(Primitive::Long) => match i64::deserialize(input) {
                Ok(x) => Ok(Value::Long(x)),
                Err(e) => Err(e),
            },
            ResolvedType::Primitive(Primitive::Double) => match Double::deserialize(input) {
                Ok(x) => Ok(Value::Double(x.to_bits())),
                Err(e) => Err(e),
            },
            ResolvedType::Primitive(Primitive::Bytes) => match Vec::<u8>::deserialize(input) {
                Ok(b) => {
                    Ok(Value::Bytes(b))
                },
                Err(e) => Err(e),
            },
            ResolvedType::Primitive(Primitive::Text) => match String::deserialize(input) {
                Ok(text) => Ok(Value::Text(text)),
                Err(e) => Err(e),
            },
            ResolvedType::Sequence(inner) => {
                let id: i32 = match i32::deserialize(input) {
                    Ok(id) => id,
                    Err(e) => {
                        return Err(e);
                    },
                };
                if id != VECTOR_ID {
                    return Err(Error::deserialize("vector"));
                }
                proof {
                    first.lemma_advance(input, 4);
                }
                let n: i32 = match i32::deserialize(input) {
                    Ok(n) => n,
                    Err(e) => {
                        return Err(e);
                    },
                };
                if n < 0 {
                    return Err(Error::deserialize("vector"));
                }
                proof {
                    first.lemma_advance(input, 8);
                }
                let kinds = Kinds::Items { kind: inner, count: n as usize };
                match deserialize_all(ast, &kinds, input) {
                    Ok(items) => {
                        let v = Value::Vector(items);
                        proof {
                            assert(v.model()->Vector_0 =~= items.deep_view());
                        }
                        Ok(v)
                    },
                    Err(e) => Err(e),
                }
            },
            ResolvedType::Reference { namespace, name } => {
                let td: &TypeDef = match ast.find(namespace, name) {
                    Some(td) => td,
                    None => {
                        input.reject();
                        return Err(Error::deserialize(name.as_str()));
                    },
                };
                let id: i32 = match i32::deserialize(input) {
                    Ok(id) => id,
                    Err(e) => {
                        return Err(e);
                    },
                };
                let at: usize = td.id_position(id);
                if at >= td.constructors.len() {
                    return Err(Error::deserialize(name.as_str()));
                }
                proof {
                    first.lemma_advance(input, 4);
                }
                let c = &td.constructors[at];
                let kinds = Kinds::Fields { fields: &c.fields };
                proof {
                    assert(kinds.kinds() =~= kinds_of(td@.constructors[at as int].fields));
                }
                match deserialize_all(ast, &kinds, input) {
                    Ok(fields) => {
                        let v = Value::Compound { id, fields };
                        proof {
                            assert(v.model()->fields =~= fields.deep_view());
                        }
                        Ok(v)
                    },
                    Err(e) => Err(e),
                }
            },
        }
    }
}

/// Decodes the values of `kinds` in a row from the bytes that `input` has
/// left, and stops at the first that fails.
fn deserialize_all(ast: &Ast, kinds: &Kinds, input: &mut Reader) -> (r: Result<
    Vec<Value>,
    Error,
>)
    requires
        old(input).lacking() == 0,
    ensures
        agrees(
            *old(input),
            *final(input),
            values_parse(ast@, kinds.kinds(), old(input).remaining(), kinds.kinds().len()),
            seen_values(r),
        ),
    decreases old(input).remaining().len(), 1nat,
{
    let ghost s = input.remaining();
    let ghost first = *input;
    let ghost all = kinds.kinds();
    let n: usize = kinds.len();
    let left: usize = input.available();
    let mut items: Vec<Value> = Vec::with_capacity(if n < left { n } else { left });
    let mut i: usize = 0;
    assert(items.deep_view() =~= Seq::empty());
    while i < n
        invariant
            i <= n,
            input.lacking() == 0,
            n == all.len(),
            all == kinds.kinds(),
            first == *old(input),
            s == first.remaining(),
            input.input() == first.input(),
            first.consumed() <= input.consumed(),
            values_parse(ast@, all, s, i as nat) == (Parsed::Done {
                value: items.deep_view(),
                used: (input.consumed() - first.consumed()) as nat,
            }),
        decreases n - i,
    {
        let ghost before = items.deep_view();
        let ghost used = (input.consumed() - first.consumed()) as nat;
        proof {
            first.lemma_advance(input, used);
        }
        match Value::deserialize(ast, kinds.kind(i), input) {
            Ok(x) => {
                items.push(x);
                assert(items.deep_view() =~= before.push(x.deep_view()));
            },
            Err(e) => {
                proof {
                    assert(values_parse(ast@, all, s, (i + 1) as nat) is Failed);
                    lemma_values_failed(ast@, all, s, (i + 1) as nat, n as nat);
                }
                return Err(e);
            },
        }
        i += 1;
    }
    Ok(items)
}

/// Once a value has failed, asking for more values changes nothing.
pub proof fn lemma_values_failed(
    ast: AstView,
    kinds: Seq<ResolvedView>,
    s: Seq<u8>,
    m: nat,
    n: nat,
)
    requires
        m <= n,
        values_parse(ast, kinds, s, m) is Failed,
    ensures
        values_parse(ast, kinds, s, n) == values_parse(ast, kinds, s, m),
    decreases n,
{
    if m < n {
        lemma_values_failed(ast, kinds, s, m, (n - 1) as nat);
    }
}

} // verus!
