//! The codecs of the primitive kinds and of sequences.

use crate::error::{Error, ErrorView};
use crate::le::{
    get_int, get_long, get_word, int_bytes, int_of, lemma_fixed_widths, lemma_int_round_trip,
    lemma_long_round_trip, lemma_word_round_trip, long_bytes, long_of, put_int, put_long, put_word,
    signed32, word_bytes, word_of,
};
use crate::reader::Reader;
use crate::writer::{fitted, lemma_fitted_both, lemma_fitted_prefix, Writer};
use vstd::prelude::*;
use vstd::slice::slice_to_vec;
use vstd::string::*;
use vstd::utf8::{
    decode_utf8, encode_utf8, encode_utf8_decode_utf8, encode_utf8_valid_utf8, valid_utf8,
};

verus! {

/// What decoding a block of bytes comes to: a value or the kind that failed,
/// and in both cases the number of bytes consumed on the way. A failure for
/// want of bytes says how many the failing read lacked; any other failure
/// lacks none.
pub enum Parsed<T> {
    Done { value: T, used: nat },
    Failed { kind: Seq<char>, used: nat, short: nat },
}

impl<T> Parsed<T> {
    /// The number of bytes consumed.
    pub open spec fn used(self) -> nat {
        match self {
            Parsed::Done { used, .. } => used,
            Parsed::Failed { used, .. } => used,
        }
    }
}

/// Whether a call that took the reader from `before` to `after`, and whose
/// result stands for `got`, did what `outcome` says.
pub open spec fn agrees<V>(
    before: Reader<'_>,
    after: Reader<'_>,
    outcome: Parsed<V>,
    got: Result<V, ErrorView>,
) -> bool {
    &&& after.input() == before.input()
    &&& after.consumed() == before.consumed() + outcome.used()
    &&& match outcome {
        Parsed::Done { value, .. } => got == Ok::<V, ErrorView>(value) && after.lacking() == 0,
        Parsed::Failed { kind, short, .. } => {
            &&& got == Err::<V, ErrorView>(ErrorView::Deserialize(kind))
            &&& after.lacking() == short
        },
    }
}

/// Whether a call that took the writer from `before` to `after` and returned
/// `r` wrote the bytes `w`: all of them, or as many as the writer had room
/// for, and then `r` is the failure for the kind `refused`.
pub open spec fn wrote(
    before: Writer,
    after: Writer,
    w: Seq<u8>,
    refused: Seq<char>,
    r: Result<(), Error>,
) -> bool {
    &&& after.limit() == before.limit()
    &&& after.written() == before.written() + fitted(w, before.room())
    &&& if w.len() <= before.room() {
        r is Ok
    } else {
        r matches Err(e) && e@ == ErrorView::Serialize(refused)
    }
}

/// A kind of value with a wire format.
///
/// An implementation gives the two codecs. What they do is stated over the
/// mathematical value of `self` and three functions of it. An implementation
/// that says nothing of these is held to do what some such functions
/// describe: that is the promise made for source that is written from a
/// schema.
pub trait TLType: Sized {
    /// The mathematical values that the values of this kind stand for.
    type V;

    /// The mathematical value that `self` stands for.
    open spec fn model(&self) -> Self::V {
        arbitrary::<spec_fn(Self) -> Self::V>()(*self)
    }

    /// The bytes that stand for `v`.
    open spec fn wire(v: Self::V) -> Seq<u8> {
        arbitrary::<spec_fn(Self::V) -> Seq<u8>>()(v)
    }

    /// What decoding makes of the bytes `s`.
    open spec fn parse(s: Seq<u8>) -> Parsed<Self::V> {
        arbitrary::<spec_fn(Seq<u8>) -> Parsed<Self::V>>()(s)
    }

    /// The kind that is reported where `v` is written with room for only
    /// `room` bytes, which are fewer than `v` has: that of the part of `v`
    /// at which the room ends.
    open spec fn refusal(v: Self::V, room: nat) -> Seq<char> {
        arbitrary::<spec_fn(Self::V, nat) -> Seq<char>>()(v, room)
    }

    /// Writes the bytes of `self` to `out`. Where `out` has no room for all
    /// of them, it is filled with their beginning and the call fails.
    fn serialize(&self, out: &mut Writer) -> (r: Result<(), Error>)
        ensures
            wrote(
                *old(out),
                *final(out),
                Self::wire(self.model()),
                Self::refusal(self.model(), old(out).room()),
                r,
            ),
    ;

    /// Decodes one value from the bytes that `input` has left.
    fn deserialize(input: &mut Reader) -> (r: Result<Self, Error>)
        ensures
            agrees(
                *old(input),
                *final(input),
                Self::parse(old(input).remaining()),
                match r {
                    Ok(x) => Ok(x.model()),
                    Err(e) => Err(e@),
                },
            ),
    ;
}

/// A kind of value whose codecs undo each other.
pub trait RoundTrip: TLType {
    /// Whether every length inside `v` can be written as a 32-bit signed
    /// integer.
    spec fn fits(v: Self::V) -> bool;

    /// Decoding the bytes of a value, whatever follows them, yields the value
    /// and consumes exactly those bytes.
    proof fn round_trip(v: Self::V, rest: Seq<u8>)
        requires
            Self::fits(v),
        ensures
            Self::parse(Self::wire(v) + rest) == (Parsed::Done {
                value: v,
                used: Self::wire(v).len(),
            }),
    ;

    /// Decoding never consumes more than there is.
    proof fn within(s: Seq<u8>)
        ensures
            Self::parse(s).used() <= s.len(),
    ;
}

impl TLType for i32 {
    type V = i32;

    open spec fn model(&self) -> i32 {
        *self
    }

    open spec fn wire(v: i32) -> Seq<u8> {
        int_bytes(v)
    }

    open spec fn parse(s: Seq<u8>) -> Parsed<i32> {
        if s.len() >= 4 {
            Parsed::Done { value: int_of(s.take(4)), used: 4 }
        } else {
            Parsed::Failed { kind: "i32"@, used: 0, short: (4 - s.len()) as nat }
        }
    }

    open spec fn refusal(v: i32, room: nat) -> Seq<char> {
        "i32"@
    }

    fn serialize(&self, out: &mut Writer) -> (r: Result<(), Error>) {
        let b = put_int(*self);
        if out.write_all(b.as_slice()) {
            Ok(())
        } else {
            Err(Error::serialize("i32"))
        }
    }

    fn deserialize(input: &mut Reader) -> (r: Result<Self, Error>) {
        match input.take(4) {
            Some(b) => {
                assert(b@.take(4) =~= b@);
                Ok(get_int(b))
            },
            None => Err(Error::deserialize("i32")),
        }
    }
}

impl RoundTrip for i32 {
    open spec fn fits(v: i32) -> bool {
        true
    }

    proof fn round_trip(v: i32, rest: Seq<u8>) {
        lemma_fixed_widths(v, 0, 0);
        lemma_int_round_trip(v);
        assert((int_bytes(v) + rest).take(4) =~= int_bytes(v));
    }

    proof fn within(s: Seq<u8>) {
    }
}

impl TLType for i64 {
    type V = i64;

    open spec fn model(&self) -> i64 {
        *self
    }

    open spec fn wire(v: i64) -> Seq<u8> {
        long_bytes(v)
    }

    open spec fn parse(s: Seq<u8>) -> Parsed<i64> {
        if s.len() >= 8 {
            Parsed::Done { value: long_of(s.take(8)), used: 8 }
        } else {
            Parsed::Failed { kind: "i64"@, used: 0, short: (8 - s.len()) as nat }
        }
    }

    open spec fn refusal(v: i64, room: nat) -> Seq<char> {
        "i64"@
    }

    fn serialize(&self, out: &mut Writer) -> (r: Result<(), Error>) {
        let b = put_long(*self);
        if out.write_all(b.as_slice()) {
            Ok(())
        } else {
            Err(Error::serialize("i64"))
        }
    }

    fn deserialize(input: &mut Reader) -> (r: Result<Self, Error>) {
        match input.take(8) {
            Some(b) => {
                assert(b@.take(8) =~= b@);
                Ok(get_long(b))
            },
            None => Err(Error::deserialize("i64")),
        }
    }
}

impl RoundTrip for i64 {
    open spec fn fits(v: i64) -> bool {
        true
    }

    proof fn round_trip(v: i64, rest: Seq<u8>) {
        lemma_fixed_widths(0, v, 0);
        lemma_long_round_trip(v);
        assert((long_bytes(v) + rest).take(8) =~= long_bytes(v));
    }

    proof fn within(s: Seq<u8>) {
    }
}

/// A 64-bit IEEE-754 number, held as its bit pattern.
#[derive(Debug, Clone, Copy, PartialEq, Eq)]
pub struct Double {
    pub bits: u64,
}

impl Double {
    /// The number with the bit pattern `bits`.
    pub fn from_bits(bits: u64) -> (d: Double)
        ensures
            d.bits == bits,
    {
        Double { bits }
    }

    /// The bit pattern of the number.
    pub fn to_bits(&self) -> (bits: u64)
        ensures
            bits == self.bits,
    {
        self.bits
    }
}

impl TLType for Double {
    type V = u64;

    open spec fn model(&self) -> u64 {
        self.bits
    }

    open spec fn wire(v: u64) -> Seq<u8> {
        word_bytes(v)
    }

    open spec fn parse(s: Seq<u8>) -> Parsed<u64> {
        if s.len() >= 8 {
            Parsed::Done { value: word_of(s.take(8)), used: 8 }
        } else {
            Parsed::Failed { kind: "f64"@, used: 0, short: (8 - s.len()) as nat }
        }
    }

    open spec fn refusal(v: u64, room: nat) -> Seq<char> {
        "f64"@
    }

    fn serialize(&self, out: &mut Writer) -> (r: Result<(), Error>) {
        let b = put_word(self.bits);
        if out.write_all(b.as_slice()) {
            Ok(())
        } else {
            Err(Error::serialize("f64"))
        }
    }

    fn deserialize(input: &mut Reader) -> (r: Result<Self, Error>) {
        match input.take(8) {
            Some(b) => {
                assert(b@.take(8) =~= b@);
                Ok(Double { bits: get_word(b) })
            },
            None => Err(Error::deserialize("f64")),
        }
    }
}

impl RoundTrip for Double {
    open spec fn fits(v: u64) -> bool {
        true
    }

    proof fn round_trip(v: u64, rest: Seq<u8>) {
        lemma_fixed_widths(0, 0, v);
        lemma_word_round_trip(v);
        assert((word_bytes(v) + rest).take(8) =~= word_bytes(v));
    }

    proof fn within(s: Seq<u8>) {
    }
}

/// The 32-bit signed integer that a length of `n` is written as: the one whose
/// two's-complement pattern is the low 32 bits of `n`.
pub open spec fn length_word(n: nat) -> i32 {
    signed32(n % 0x1_0000_0000)
}

/// The 32-bit signed integer that a length of `n` is written as.
pub fn wire_length(n: usize) -> (r: i32)
    ensures
        r == length_word(n as nat),
        n <= i32::MAX ==> r == n,
{
    let low: u64 = (n as u64) % 0x1_0000_0000;
    if low < 0x8000_0000 {
        low as i32
    } else {
        (low as i64 - 0x1_0000_0000) as i32
    }
}

impl TLType for Vec<u8> {
    type V = Seq<u8>;

    open spec fn model(&self) -> Seq<u8> {
        self@
    }

    open spec fn wire(v: Seq<u8>) -> Seq<u8> {
        int_bytes(length_word(v.len())) + v
    }

    open spec fn parse(s: Seq<u8>) -> Parsed<Seq<u8>> {
        match <i32 as TLType>::parse(s) {
            Parsed::Failed { kind, used, short } => Parsed::Failed { kind, used, short },
            Parsed::Done { value: n, .. } => if n < 0 {
                Parsed::Failed { kind: "bytes"@, used: 4, short: 0 }
            } else if 4 + n <= s.len() {
                Parsed::Done { value: s.subrange(4, 4 + n), used: (4 + n) as nat }
            } else {
                Parsed::Failed { kind: "bytes"@, used: 4, short: (4 + n - s.len()) as nat }
            },
        }
    }

    open spec fn refusal(v: Seq<u8>, room: nat) -> Seq<char> {
        if room < 4 {
            "i32"@
        } else {
            "bytes"@
        }
    }

    fn serialize(&self, out: &mut Writer) -> (r: Result<(), Error>) {
        let ghost start = *out;
        let ghost room = out.room();
        let ghost head = int_bytes(length_word(self@.len()));
        proof {
            lemma_fixed_widths(length_word(self@.len()), 0, 0);
        }
        match wire_length(self.len()).serialize(out) {
            Ok(()) => {},
            Err(e) => {
                proof {
                    assert(head.is_prefix_of(head + self@));
                    lemma_fitted_prefix(head, head + self@, room);
                }
                return Err(e);
            },
        }
        proof {
            let rest = fitted(self@, (room - 4) as nat);
            start.lemma_room_after(out, head);
            lemma_fitted_both(head, self@, room);
            assert(start.written() + head + rest =~= start.written() + (head + rest));
        }
        if out.write_all(self.as_slice()) {
            Ok(())
        } else {
            Err(Error::serialize("bytes"))
        }
    }

    fn deserialize(input: &mut Reader) -> (r: Result<Self, Error>) {
        let ghost s = input.remaining();
        let ghost start = *input;
        let n: i32 = match i32::deserialize(input) {
            Ok(n) => n,
            Err(e) => {
                return Err(e);
            },
        };
        proof {
            start.lemma_advance(input, 4);
        }
        if n < 0 {
            return Err(Error::deserialize("bytes"));
        }
        match input.take(n as usize) {
            Some(b) => {
                let v = slice_to_vec(b);
                proof {
                            assert(s.skip(4).take(n as int) =~= s.subrange(4, 4 + n));
                }
                Ok(v)
            },
            None => Err(Error::deserialize("bytes")),
        }
    }
}

impl RoundTrip for Vec<u8> {
    open spec fn fits(v: Seq<u8>) -> bool {
        v.len() <= i32::MAX
    }

    proof fn round_trip(v: Seq<u8>, rest: Seq<u8>) {
        let n = length_word(v.len());
        let head = int_bytes(n);
        let s = head + v + rest;
        lemma_fixed_widths(n, 0, 0);
        lemma_int_round_trip(n);
        assert(s.take(4) =~= head);
        assert(s.subrange(4, 4 + n) =~= v);
    }

    proof fn within(s: Seq<u8>) {
    }
}

/// `String::from_utf8`: the text that `bytes` hold in UTF-8, and nothing where
/// they are not valid UTF-8.
#[verifier::external_body]
fn text_of(bytes: Vec<u8>) -> (r: Option<String>)
    ensures
        r is Some <==> valid_utf8(bytes@),
        r matches Some(s) ==> s@ == decode_utf8(bytes@),
{
    String::from_utf8(bytes).ok()
}

impl TLType for String {
    type V = Seq<char>;

    open spec fn model(&self) -> Seq<char> {
        self@
    }

    open spec fn wire(v: Seq<char>) -> Seq<u8> {
        <Vec<u8> as TLType>::wire(encode_utf8(v))
    }

    open spec fn parse(s: Seq<u8>) -> Parsed<Seq<char>> {
        match <Vec<u8> as TLType>::parse(s) {
            Parsed::Failed { used, short, .. } => Parsed::Failed { kind: "string"@, used, short },
            Parsed::Done { value: b, used } => if valid_utf8(b) {
                Parsed::Done { value: decode_utf8(b), used }
            } else {
                Parsed::Failed { kind: "string"@, used, short: 0 }
            },
        }
    }

    open spec fn refusal(v: Seq<char>, room: nat) -> Seq<char> {
        "string"@
    }

    fn serialize(&self, out: &mut Writer) -> (r: Result<(), Error>) {
        let b: Vec<u8> = self.as_str().as_bytes_vec();
        match b.serialize(out) {
            Ok(()) => Ok(()),
            Err(_) => Err(Error::serialize("string")),
        }
    }

    fn deserialize(input: &mut Reader) -> (r: Result<Self, Error>) {
        let b: Vec<u8> = match Vec::<u8>::deserialize(input) {
            Ok(b) => b,
            Err(_) => {
                return Err(Error::deserialize("string"));
            },
        };
        match text_of(b) {
            Some(text) => Ok(text),
            None => Err(Error::deserialize("string")),
        }
    }
}

impl RoundTrip for String {
    open spec fn fits(v: Seq<char>) -> bool {
        encode_utf8(v).len() <= i32::MAX
    }

    proof fn round_trip(v: Seq<char>, rest: Seq<u8>) {
        <Vec<u8> as RoundTrip>::round_trip(encode_utf8(v), rest);
        encode_utf8_valid_utf8(v);
        encode_utf8_decode_utf8(v);
    }

    proof fn within(s: Seq<u8>) {
    }
}

/// The discriminator that opens every sequence on the wire.
pub const VECTOR_ID: i32 = 0x1cb5c415;

/// The encodings of the items of `vs`, one after the other.
pub open spec fn wire_all<T: TLType>(vs: Seq<T::V>) -> Seq<u8>
    decreases vs.len(),
{
    if vs.len() == 0 {
        Seq::empty()
    } else {
        wire_all::<T>(vs.drop_last()) + T::wire(vs.last())
    }
}

/// What decoding `n` items in a row makes of the bytes `s`: it stops at the
/// first item that fails.
pub open spec fn parse_all<T: TLType>(s: Seq<u8>, n: nat) -> Parsed<Seq<T::V>>
    decreases n,
{
    if n == 0 {
        Parsed::Done { value: Seq::empty(), used: 0 }
    } else {
        match parse_all::<T>(s, (n - 1) as nat) {
            Parsed::Failed { kind, used, short } => Parsed::Failed { kind, used, short },
            Parsed::Done { value: vs, used } => match T::parse(s.skip(used as int)) {
                Parsed::Failed { kind, used: more, short } => Parsed::Failed {
                    kind,
                    used: used + more,
                    short,
                },
                Parsed::Done { value: v, used: more } => Parsed::Done {
                    value: vs.push(v),
                    used: used + more,
                },
            },
        }
    }
}

/// `p` after `by` more bytes were consumed before it.
pub open spec fn shifted<T>(p: Parsed<T>, by: nat) -> Parsed<T> {
    match p {
        Parsed::Done { value, used } => Parsed::Done { value, used: used + by },
        Parsed::Failed { kind, used, short } => Parsed::Failed { kind, used: used + by, short },
    }
}

/// Once an item has failed, asking for more items changes nothing.
pub proof fn lemma_parse_all_failed<T: TLType>(s: Seq<u8>, m: nat, n: nat)
    requires
        m <= n,
        parse_all::<T>(s, m) is Failed,
    ensures
        parse_all::<T>(s, n) == parse_all::<T>(s, m),
    decreases n,
{
    if m < n {
        lemma_parse_all_failed::<T>(s, m, (n - 1) as nat);
    }
}

/// Decoding items in a row never consumes more than there is.
pub proof fn lemma_parse_all_within<T: RoundTrip>(s: Seq<u8>, n: nat)
    ensures
        parse_all::<T>(s, n).used() <= s.len(),
    decreases n,
{
    if n > 0 {
        lemma_parse_all_within::<T>(s, (n - 1) as nat);
        if let Parsed::Done { used, .. } = parse_all::<T>(s, (n - 1) as nat) {
            T::within(s.skip(used as int));
        }
    }
}

/// Decoding as many items as were encoded, whatever follows them, yields the
/// items and consumes exactly their bytes.
pub proof fn lemma_parse_all_round_trip<T: RoundTrip>(vs: Seq<T::V>, rest: Seq<u8>)
    requires
        forall|i: int| 0 <= i < vs.len() ==> T::fits(#[trigger] vs[i]),
    ensures
        parse_all::<T>(wire_all::<T>(vs) + rest, vs.len()) == (Parsed::Done {
            value: vs,
            used: wire_all::<T>(vs).len(),
        }),
    decreases vs.len(),
{
    if vs.len() > 0 {
        let front = vs.drop_last();
        let s = wire_all::<T>(vs) + rest;
        let last = vs.last();
        assert forall|i: int| 0 <= i < front.len() implies T::fits(#[trigger] front[i]) by {
            assert(front[i] == vs[i]);
        }
        lemma_parse_all_round_trip::<T>(front, T::wire(last) + rest);
        assert(s =~= wire_all::<T>(front) + (T::wire(last) + rest));
        let used = wire_all::<T>(front).len();
        assert(parse_all::<T>(s, front.len()) == (Parsed::Done { value: front, used }));
        assert(s.skip(used as int) =~= T::wire(last) + rest);
        T::round_trip(last, rest);
        assert(T::parse(s.skip(used as int)) == (Parsed::Done {
            value: last,
            used: T::wire(last).len(),
        }));
        assert(front.push(last) =~= vs);
        assert((vs.len() - 1) as nat == front.len());
        assert(wire_all::<T>(vs).len() == used + T::wire(last).len());
    } else {
        assert(vs =~= Seq::empty());
    }
}

/// The kind that is reported where the items of `vs` from index `from` on
/// are written with room for only `room` bytes: that of the first item that
/// does not fit behind those before it.
pub open spec fn refusal_all<T: TLType>(vs: Seq<T::V>, from: int, room: nat) -> Seq<char>
    decreases vs.len() - from,
{
    if from < 0 || from >= vs.len() {
        Seq::empty()
    } else if T::wire(vs[from]).len() > room {
        T::refusal(vs[from], room)
    } else {
        refusal_all::<T>(vs, from + 1, (room - T::wire(vs[from]).len()) as nat)
    }
}

/// The encodings of the first items are the beginning of the encodings of
/// all.
pub proof fn lemma_wire_all_prefix<T: TLType>(vs: Seq<T::V>, n: nat)
    requires
        n <= vs.len(),
    ensures
        wire_all::<T>(vs.take(n as int)).is_prefix_of(wire_all::<T>(vs)),
    decreases vs.len() - n,
{
    if n == vs.len() {
        assert(vs.take(n as int) =~= vs);
    } else {
        lemma_wire_all_prefix::<T>(vs, n + 1);
        assert(vs.take((n + 1) as int).drop_last() =~= vs.take(n as int));
    }
}

impl<T: TLType> TLType for Vec<T> {
    type V = Seq<T::V>;

    open spec fn model(&self) -> Seq<T::V> {
        Seq::new(self@.len(), |i: int| self@[i].model())
    }

    open spec fn wire(v: Seq<T::V>) -> Seq<u8> {
        int_bytes(VECTOR_ID) + int_bytes(length_word(v.len())) + wire_all::<T>(v)
    }

    open spec fn parse(s: Seq<u8>) -> Parsed<Seq<T::V>> {
        match <i32 as TLType>::parse(s) {
            Parsed::Failed { kind, used, short } => Parsed::Failed { kind, used, short },
            Parsed::Done { value: id, .. } => if id != VECTOR_ID {
                Parsed::Failed { kind: "vector"@, used: 4, short: 0 }
            } else {
                match <i32 as TLType>::parse(s.skip(4)) {
                    Parsed::Failed { kind, used, short } => Parsed::Failed {
                        kind,
                        used: used + 4,
                        short,
                    },
                    Parsed::Done { value: n, .. } => if n < 0 {
                        Parsed::Failed { kind: "vector"@, used: 8, short: 0 }
                    } else {
                        shifted(parse_all::<T>(s.skip(8), n as nat), 8)
                    },
                }
            },
        }
    }

    open spec fn refusal(v: Seq<T::V>, room: nat) -> Seq<char> {
        if room < 8 {
            "i32"@
        } else {
            refusal_all::<T>(v, 0, (room - 8) as nat)
        }
    }

    fn serialize(&self, out: &mut Writer) -> (r: Result<(), Error>) {
        let ghost start = *out;
        let ghost room = out.room();
        let ghost items = self.model();
        let ghost id_bytes = int_bytes(VECTOR_ID);
        let ghost header = id_bytes + int_bytes(length_word(items.len()));
        let ghost whole = header + wire_all::<T>(items);
        proof {
            lemma_fixed_widths(VECTOR_ID, 0, 0);
            lemma_fixed_widths(length_word(items.len()), 0, 0);
            assert(id_bytes.is_prefix_of(whole));
            assert(header.is_prefix_of(whole));
        }
        match VECTOR_ID.serialize(out) {
            Ok(()) => {},
            Err(e) => {
                proof {
                    lemma_fitted_prefix(id_bytes, whole, room);
                }
                return Err(e);
            },
        }
        let ghost mid = *out;
        proof {
            start.lemma_room_after(&mid, id_bytes);
        }
        match wire_length(self.len()).serialize(out) {
            Ok(()) => {},
            Err(e) => {
                proof {
                    lemma_fitted_both(id_bytes, int_bytes(length_word(items.len())), room);
                    lemma_fitted_prefix(header, whole, room);
                    assert(out.written() =~= start.written() + fitted(whole, room));
                }
                return Err(e);
            },
        }
        proof {
            mid.lemma_room_after(out, int_bytes(length_word(items.len())));
        }
        let ghost body_room = (room - 8) as nat;
        let mut i: usize = 0;
        assert(wire_all::<T>(items.take(0)) =~= Seq::empty());
        assert(out.written() =~= start.written() + header + wire_all::<T>(items.take(0)));
        while i < self.len()
            invariant
                i <= self.len(),
                items == self.model(),
                start == *old(out),
                room == start.room(),
                room >= 8,
                body_room == room - 8,
                header.len() == 8,
                whole == header + wire_all::<T>(items),
                whole == Self::wire(items),
                out.limit() == start.limit(),
                out.written() == start.written() + header + wire_all::<T>(items.take(i as int)),
                wire_all::<T>(items.take(i as int)).len() + out.room() == body_room,
                refusal_all::<T>(items, 0, body_room) == refusal_all::<T>(
                    items,
                    i as int,
                    out.room(),
                ),
            decreases self.len() - i,
        {
            let ghost done = wire_all::<T>(items.take(i as int));
            let ghost w = T::wire(items[i as int]);
            let ghost upto = wire_all::<T>(items.take(i + 1));
            let ghost before = *out;
            proof {
                out.lemma_within();
                assert(items.take(i + 1).drop_last() =~= items.take(i as int));
                assert(items.take(i + 1).last() == self@[i as int].model());
                assert(upto == done + w);
            }
            match self[i].serialize(out) {
                Ok(()) => {},
                Err(e) => {
                    proof {
                        lemma_wire_all_prefix::<T>(items, (i + 1) as nat);
                        assert((header + upto).is_prefix_of(whole));
                        lemma_fitted_prefix(header + upto, whole, room);
                        assert(header + upto =~= (header + done) + w);
                        lemma_fitted_both(header + done, w, room);
                        assert(out.written() =~= start.written() + fitted(whole, room));
                    }
                    return Err(e);
                },
            }
            proof {
                before.lemma_room_after(out, w);
                assert(out.written() =~= start.written() + header + upto);
            }
            i += 1;
        }
        proof {
            assert(items.take(i as int) =~= items);
            assert(out.written() =~= start.written() + fitted(whole, room));
        }
        Ok(())
    }

    fn deserialize(input: &mut Reader) -> (r: Result<Self, Error>) {
        let ghost s = input.remaining();
        let ghost first = *input;
        let id: i32 = match i32::deserialize(input) {
            Ok(id) => id,
            Err(e) => {
                return Err(e);
            },
        };
        if id != VECTOR_ID {
            return Err(Error::deserialize("vector"));
        }
        proof {
            first.lemma_advance(input, 4);
        }
        let n: i32 = match i32::deserialize(input) {
            Ok(n) => n,
            Err(e) => {
                return Err(e);
            },
        };
        if n < 0 {
            return Err(Error::deserialize("vector"));
        }
        let size: usize = n as usize;
        let ghost body = s.skip(8);
        let ghost second = *input;
        let ghost start = input.consumed();
        let ghost all = input.input();
        proof {
            first.lemma_advance(input, 8);
        }
        let left: usize = input.available();
        let mut items: Vec<T> = Vec::with_capacity(if size < left { size } else { left });
        let mut i: usize = 0;
        assert(items.model() =~= Seq::empty());
        while i < size
            invariant
                i <= size,
                input.lacking() == 0,
                input.input() == all,
                first == *old(input),
                first.input() == all,
                start == first.consumed() + 8,
                Self::parse(first.remaining()) == shifted(parse_all::<T>(body, size as nat), 8),
                second.input() == all,
                second.consumed() == start,
                second.remaining() == body,
                start <= input.consumed(),
                parse_all::<T>(body, i as nat) == (Parsed::Done {
                    value: items.model(),
                    used: (input.consumed() - start) as nat,
                }),
            decreases size - i,
        {
            let ghost before = items.model();
            let ghost used = (input.consumed() - start) as nat;
            proof {
                second.lemma_advance(input, used);
            }
            match T::deserialize(input) {
                Ok(x) => {
                    items.push(x);
                    assert(items.model() =~= before.push(x.model()));
                },
                Err(e) => {
                    proof {
                        assert(parse_all::<T>(body, (i + 1) as nat) is Failed);
                        lemma_parse_all_failed::<T>(body, (i + 1) as nat, size as nat);
                    }
                    return Err(e);
                },
            }
            i += 1;
        }
        Ok(items)
    }
}

impl<T: RoundTrip> RoundTrip for Vec<T> {
    open spec fn fits(v: Seq<T::V>) -> bool {
        &&& v.len() <= i32::MAX
        &&& forall|i: int| 0 <= i < v.len() ==> T::fits(#[trigger] v[i])
    }

    proof fn round_trip(v: Seq<T::V>, rest: Seq<u8>) {
        let n = length_word(v.len());
        let s = Self::wire(v) + rest;
        lemma_fixed_widths(VECTOR_ID, 0, 0);
        lemma_fixed_widths(n, 0, 0);
        lemma_int_round_trip(VECTOR_ID);
        lemma_int_round_trip(n);
        assert(s.take(4) =~= int_bytes(VECTOR_ID));
        assert(s.skip(4).take(4) =~= int_bytes(n));
        assert(s.skip(8) =~= wire_all::<T>(v) + rest);
        lemma_parse_all_round_trip::<T>(v, rest);
    }

    proof fn within(s: Seq<u8>) {
        if s.len() >= 8 {
            let n = int_of(s.skip(4).take(4));
            if n >= 0 {
                lemma_parse_all_within::<T>(s.skip(8), n as nat);
            }
        }
    }
}

/// A block that does not open with the discriminator of sequences is no
/// sequence: decoding fails after those four bytes and looks at nothing else.
pub proof fn lemma_vector_needs_its_id<T: TLType>(s: Seq<u8>)
    requires
        s.len() >= 4,
        int_of(s.take(4)) != VECTOR_ID,
    ensures
        <Vec<T> as TLType>::parse(s) == (Parsed::<Seq<T::V>>::Failed {
            kind: "vector"@,
            used: 4,
            short: 0,
        }),
{
}

impl<T: TLType> TLType for Box<T> {
    type V = T::V;

    open spec fn model(&self) -> T::V {
        (**self).model()
    }

    open spec fn wire(v: T::V) -> Seq<u8> {
        T::wire(v)
    }

    open spec fn parse(s: Seq<u8>) -> Parsed<T::V> {
        T::parse(s)
    }

    open spec fn refusal(v: T::V, room: nat) -> Seq<char> {
        T::refusal(v, room)
    }

    fn serialize(&self, out: &mut Writer) -> (r: Result<(), Error>) {
        (**self).serialize(out)
    }

    fn deserialize(input: &mut Reader) -> (r: Result<Self, Error>) {
        match T::deserialize(input) {
            Ok(x) => Ok(Box::new(x)),
            Err(e) => Err(e),
        }
    }
}

impl<T: RoundTrip> RoundTrip for Box<T> {
    open spec fn fits(v: T::V) -> bool {
        T::fits(v)
    }

    proof fn round_trip(v: T::V, rest: Seq<u8>) {
        T::round_trip(v, rest);
    }

    proof fn within(s: Seq<u8>) {
        T::within(s);
    }
}

} // verus!
