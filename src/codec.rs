//! The routines that a derivation produces, run over values of the types
//! that a schema lays out: encode writes the discriminant (for an enum) and
//! then each field in declaration order, a nested value as its own bytes;
//! decode reads them back in the same order, resolving fields that travel as
//! an id through the decoding context.
use vstd::prelude::*;
use crate::wire::{
    varint_bytes, varint_parse, write_varint, read_varint, lemma_varint_round_trip, byte_string,
    write_bytes, read_bytes, lemma_byte_string_round_trip,
};

verus! {

/// How the type of one field travels on the wire.
#[derive(Clone, Copy, Debug, PartialEq, Eq, Structural)]
pub enum LeafCodec {
    /// An unsigned integer, written as itself.
    Unsigned,
    /// A value written as its id and found again through the context's lookup.
    ById,
    /// A byte string, or a string as its UTF-8 bytes: the length, then the bytes.
    Bytes,
    /// A value of another derived type: the one at this index of the schema,
    /// which comes before the type whose field this is.
    Nested(usize),
}

/// The value of one field.
#[derive(Debug, PartialEq, Eq)]
pub enum FieldValue {
    Unsigned(u64),
    /// A value known by `id`; `text` is what the context resolves the id to.
    Resolved { id: u64, text: String },
    Bytes(Vec<u8>),
    Nested(Box<Value>),
}

/// A value of a derived type: the variant it is (0 for a struct) and its
/// fields in declaration order.
#[derive(Debug, PartialEq, Eq)]
pub struct Value {
    pub arm: usize,
    pub fields: Vec<FieldValue>,
}

pub enum FieldView {
    Unsigned(u64),
    Resolved(u64, Seq<char>),
    Bytes(Seq<u8>),
    Nested(ValueView),
}

pub struct ValueView {
    pub arm: u64,
    pub fields: Seq<FieldView>,
}

pub open spec fn value_view(v: Value) -> ValueView
    decreases v, 2nat,
{
    ValueView { arm: v.arm as u64, fields: fields_view(v.fields@) }
}

pub open spec fn fields_view(fs: Seq<FieldValue>) -> Seq<FieldView>
    decreases fs, 1nat,
{
    if fs.len() == 0 {
        Seq::empty()
    } else {
        seq![field_view(fs[0])] + fields_view(fs.drop_first())
    }
}

pub open spec fn field_view(f: FieldValue) -> FieldView
    decreases f, 0nat,
{
    match f {
        FieldValue::Unsigned(n) => FieldView::Unsigned(n),
        FieldValue::Resolved { id, text } => FieldView::Resolved(id, text@),
        FieldValue::Bytes(b) => FieldView::Bytes(b@),
        FieldValue::Nested(b) => FieldView::Nested(value_view(*b)),
    }
}

impl View for FieldValue {
    type V = FieldView;

    open spec fn view(&self) -> FieldView {
        field_view(*self)
    }
}

impl View for Value {
    type V = ValueView;

    open spec fn view(&self) -> ValueView {
        value_view(*self)
    }
}

/// The wire shape of one derived type: whether a discriminant comes first
/// (an enum), and for each variant, or for the single body of a struct, the
/// codec of each field in declaration order.
#[derive(Clone, Debug, PartialEq, Eq)]
pub struct Layout {
    pub tagged: bool,
    pub arms: Vec<Vec<LeafCodec>>,
}

pub struct LayoutView {
    pub tagged: bool,
    pub arms: Seq<Seq<LeafCodec>>,
}

impl View for Layout {
    type V = LayoutView;

    open spec fn view(&self) -> LayoutView {
        LayoutView { tagged: self.tagged, arms: self.arms@.map_values(|a: Vec<LeafCodec>| a@) }
    }
}

/// The layouts of several derived types, each of whose nested fields refers
/// to a type before it.
#[derive(Clone, Debug, PartialEq, Eq)]
pub struct Schema {
    pub types: Vec<Layout>,
}

impl View for Schema {
    type V = Seq<LayoutView>;

    open spec fn view(&self) -> Seq<LayoutView> {
        self.types@.map_values(|l: Layout| l@)
    }
}

/// The arm that `v` takes in type `k`: the only body of a struct, or the
/// variant that `v` names.
pub open spec fn arm_codecs(sch: Seq<LayoutView>, k: nat, v: ValueView) -> Seq<LeafCodec> {
    if sch[k as int].tagged {
        sch[k as int].arms[v.arm as int]
    } else {
        sch[k as int].arms[0]
    }
}

/// `v` is a value of type `k`: a struct's value is arm 0 of its single body,
/// an enum's value names a declared variant, and each field is of its codec's
/// kind (a nested field of an earlier type).
pub open spec fn value_fits(sch: Seq<LayoutView>, k: nat, v: ValueView) -> bool
    decreases v, 2nat,
{
    &&& k < sch.len()
    &&& if sch[k as int].tagged { v.arm < sch[k as int].arms.len() } else { v.arm == 0 && sch[k as int].arms.len() == 1 }
    &&& fields_fit(sch, k, arm_codecs(sch, k, v), v.fields)
}

pub open spec fn fields_fit(sch: Seq<LayoutView>, k: nat, cs: Seq<LeafCodec>, fs: Seq<FieldView>) -> bool
    decreases fs, 1nat,
{
    &&& cs.len() == fs.len()
    &&& fs.len() > 0 ==> field_fits(sch, k, cs[0], fs[0]) && fields_fit(sch, k, cs.drop_first(), fs.drop_first())
}

pub open spec fn field_fits(sch: Seq<LayoutView>, k: nat, c: LeafCodec, f: FieldView) -> bool
    decreases f, 0nat,
{
    match (c, f) {
        (LeafCodec::Unsigned, FieldView::Unsigned(_)) => true,
        (LeafCodec::ById, FieldView::Resolved(_, _)) => true,
        (LeafCodec::Bytes, FieldView::Bytes(b)) => b.len() <= u64::MAX,
        (LeafCodec::Nested(j), FieldView::Nested(w)) => j < k && value_fits(sch, j as nat, w),
        _ => false,
    }
}

/// The bytes of a value of type `k`: the discriminant, for an enum, then
/// each field's bytes in declaration order.
pub open spec fn encoding(sch: Seq<LayoutView>, k: nat, v: ValueView) -> Seq<u8>
    decreases v, 2nat,
{
    let body = fields_bytes(sch, arm_codecs(sch, k, v), v.fields);
    if sch[k as int].tagged {
        varint_bytes(v.arm) + body
    } else {
        body
    }
}

/// The bytes of each field, one after the other.
pub open spec fn fields_bytes(sch: Seq<LayoutView>, cs: Seq<LeafCodec>, fs: Seq<FieldView>) -> Seq<u8>
    decreases fs, 1nat,
{
    if fs.len() == 0 {
        Seq::empty()
    } else {
        field_bytes(sch, cs[0], fs[0]) + fields_bytes(sch, cs.drop_first(), fs.drop_first())
    }
}

/// The bytes of one field: an integer, the id that stands for a resolved
/// value, or the bytes of a nested value.
pub open spec fn field_bytes(sch: Seq<LayoutView>, c: LeafCodec, f: FieldView) -> Seq<u8>
    decreases f, 0nat,
{
    match f {
        FieldView::Unsigned(n) => varint_bytes(n),
        FieldView::Resolved(id, _) => varint_bytes(id),
        FieldView::Bytes(b) => byte_string(b),
        FieldView::Nested(w) => match c {
            LeafCodec::Nested(j) => encoding(sch, j as nat, w),
            _ => Seq::empty(),
        },
    }
}

/// A decoding context that exposes the lookup capability: it resolves an id
/// to the value it stands for. Where one id appears twice, the first entry
/// counts.
#[derive(Clone, Debug, PartialEq, Eq)]
pub struct LookupTable {
    pub entries: Vec<(u64, String)>,
}

impl View for LookupTable {
    type V = Seq<(u64, Seq<char>)>;

    open spec fn view(&self) -> Seq<(u64, Seq<char>)> {
        self.entries@.map_values(|e: (u64, String)| (e.0, e.1@))
    }
}

/// What `id` resolves to in `t`: the text of the first entry with that id.
pub open spec fn lookup_in(t: Seq<(u64, Seq<char>)>, id: u64) -> Option<Seq<char>>
    decreases t.len(),
{
    if t.len() == 0 {
        None
    } else if t[0].0 == id {
        Some(t[0].1)
    } else {
        lookup_in(t.drop_first(), id)
    }
}

impl LookupTable {
    /// An empty context: it resolves no id, as the unit context does.
    pub fn empty() -> (r: LookupTable)
        ensures
            r@ == Seq::<(u64, Seq<char>)>::empty(),
    {
        let r = LookupTable { entries: Vec::new() };
        assert(r@ =~= Seq::<(u64, Seq<char>)>::empty());
        r
    }

    /// Resolves `id`.
    pub fn lookup(&self, id: u64) -> (r: Option<String>)
        ensures
            match (r, lookup_in(self@, id)) {
                (Some(s), Some(t)) => s@ == t,
                (None, None) => true,
                _ => false,
            },
    {
        let n = self.entries.len();
        let mut i: usize = 0;
        assert(self@.subrange(0, n as int) =~= self@);
        while i < n
            invariant
                n == self.entries@.len(),
                i <= n,
                lookup_in(self@, id) == lookup_in(self@.subrange(i as int, n as int), id),
            decreases n - i,
        {
            let e = &self.entries[i];
            proof {
                let rest = self@.subrange(i as int, n as int);
                assert(rest[0] == (e.0, e.1@));
                assert(rest.drop_first() =~= self@.subrange(i + 1, n as int));
            }
            if e.0 == id {
                return Some(e.1.clone());
            }
            i = i + 1;
        }
        None
    }
}

/// Why decoding failed.
#[derive(Clone, Copy, Debug, PartialEq, Eq, Structural)]
pub enum DecodeError {
    /// No well-formed integer where one was due: an unknown marker byte, or
    /// the input ended too early.
    InvalidInteger,
    /// An enum's discriminant names no declared variant.
    UnknownDiscriminant(u64),
    /// The context resolves no value for this id.
    UnknownId(u64),
    /// A byte string announces more bytes than the input holds.
    Truncated,
    /// The schema has no such type, a struct without exactly one body, or a
    /// nested field that does not refer to an earlier type.
    InvalidLayout,
}

/// Reads a value of type `k` from the front of `s`: for an enum the
/// discriminant first, which must name a declared variant, then the fields
/// of that variant or of the struct's body, in order; the first failure
/// decides the error.
pub open spec fn decode_type(sch: Seq<LayoutView>, k: nat, t: Seq<(u64, Seq<char>)>, s: Seq<u8>) -> Result<(ValueView, nat), DecodeError>
    decreases k, 2nat, 0nat,
{
    if k >= sch.len() {
        Err(DecodeError::InvalidLayout)
    } else if sch[k as int].tagged {
        match varint_parse(s) {
            None => Err(DecodeError::InvalidInteger),
            Some((d, m)) => if d >= sch[k as int].arms.len() {
                Err(DecodeError::UnknownDiscriminant(d))
            } else {
                match decode_fields(sch, k, sch[k as int].arms[d as int], t, s.subrange(m as int, s.len() as int)) {
                    Err(e) => Err(e),
                    Ok((fs, n)) => Ok((ValueView { arm: d, fields: fs }, m + n)),
                }
            },
        }
    } else if sch[k as int].arms.len() != 1 {
        Err(DecodeError::InvalidLayout)
    } else {
        match decode_fields(sch, k, sch[k as int].arms[0], t, s) {
            Err(e) => Err(e),
            Ok((fs, n)) => Ok((ValueView { arm: 0, fields: fs }, n)),
        }
    }
}

/// Reads the fields with codecs `cs`, in order, from the front of `s`.
pub open spec fn decode_fields(sch: Seq<LayoutView>, k: nat, cs: Seq<LeafCodec>, t: Seq<(u64, Seq<char>)>, s: Seq<u8>) -> Result<(Seq<FieldView>, nat), DecodeError>
    decreases k, 1nat, cs.len(),
{
    if cs.len() == 0 {
        Ok((Seq::empty(), 0))
    } else {
        match decode_field(sch, k, cs[0], t, s) {
            Err(e) => Err(e),
            Ok((f, m)) => match decode_fields(sch, k, cs.drop_first(), t, s.subrange(m as int, s.len() as int)) {
                Err(e) => Err(e),
                Ok((fs, n)) => Ok((seq![f] + fs, m + n)),
            },
        }
    }
}

/// Reads one field of a value of type `k` from the front of `s`.
pub open spec fn decode_field(sch: Seq<LayoutView>, k: nat, c: LeafCodec, t: Seq<(u64, Seq<char>)>, s: Seq<u8>) -> Result<(FieldView, nat), DecodeError>
    decreases k, 0nat, 0nat,
{
    match c {
        LeafCodec::Unsigned => match varint_parse(s) {
            None => Err(DecodeError::InvalidInteger),
            Some((n, m)) => Ok((FieldView::Unsigned(n), m)),
        },
        LeafCodec::ById => match varint_parse(s) {
            None => Err(DecodeError::InvalidInteger),
            Some((n, m)) => match lookup_in(t, n) {
                None => Err(DecodeError::UnknownId(n)),
                Some(text) => Ok((FieldView::Resolved(n, text), m)),
            },
        },
        LeafCodec::Bytes => match varint_parse(s) {
            None => Err(DecodeError::InvalidInteger),
            Some((len, m)) => if m + len > s.len() {
                Err(DecodeError::Truncated)
            } else {
                Ok((FieldView::Bytes(s.subrange(m as int, (m + len) as int)), (m + len) as nat))
            },
        },
        LeafCodec::Nested(j) => if j < k {
            match decode_type(sch, j as nat, t, s) {
                Err(e) => Err(e),
                Ok((w, m)) => Ok((FieldView::Nested(w), m)),
            }
        } else {
            Err(DecodeError::InvalidLayout)
        },
    }
}

/// Every field of `v`, nested ones included, that is resolved through the
/// context holds what `t` resolves its id to.
pub open spec fn value_agrees(t: Seq<(u64, Seq<char>)>, v: ValueView) -> bool
    decreases v, 2nat,
{
    fields_agree(t, v.fields)
}

pub open spec fn fields_agree(t: Seq<(u64, Seq<char>)>, fs: Seq<FieldView>) -> bool
    decreases fs, 1nat,
{
    fs.len() > 0 ==> field_agrees(t, fs[0]) && fields_agree(t, fs.drop_first())
}

pub open spec fn field_agrees(t: Seq<(u64, Seq<char>)>, f: FieldView) -> bool
    decreases f, 0nat,
{
    match f {
        FieldView::Resolved(id, text) => lookup_in(t, id) == Some(text),
        FieldView::Nested(w) => value_agrees(t, w),
        FieldView::Unsigned(_) => true,
        FieldView::Bytes(_) => true,
    }
}

proof fn lemma_value_round_trip(sch: Seq<LayoutView>, k: nat, t: Seq<(u64, Seq<char>)>, v: ValueView, rest: Seq<u8>)
    requires
        value_fits(sch, k, v),
        value_agrees(t, v),
    ensures
        decode_type(sch, k, t, encoding(sch, k, v) + rest) == Ok::<(ValueView, nat), DecodeError>((v, encoding(sch, k, v).len())),
    decreases v, 2nat,
{
    let cs = arm_codecs(sch, k, v);
    let body = fields_bytes(sch, cs, v.fields);
    lemma_fields_round_trip(sch, k, cs, t, v.fields, rest);
    if sch[k as int].tagged {
        let d = varint_bytes(v.arm);
        let s = encoding(sch, k, v) + rest;
        assert(s =~= d + (body + rest));
        lemma_varint_round_trip(v.arm, body + rest);
        assert(s.subrange(d.len() as int, s.len() as int) =~= body + rest);
    }
}

proof fn lemma_fields_round_trip(sch: Seq<LayoutView>, k: nat, cs: Seq<LeafCodec>, t: Seq<(u64, Seq<char>)>, fs: Seq<FieldView>, rest: Seq<u8>)
    requires
        fields_fit(sch, k, cs, fs),
        fields_agree(t, fs),
    ensures
        decode_fields(sch, k, cs, t, fields_bytes(sch, cs, fs) + rest) == Ok::<(Seq<FieldView>, nat), DecodeError>((fs, fields_bytes(sch, cs, fs).len())),
    decreases fs, 1nat,
{
    if fs.len() == 0 {
        assert(fs =~= Seq::<FieldView>::empty());
    } else {
        let b = field_bytes(sch, cs[0], fs[0]);
        let tail = fields_bytes(sch, cs.drop_first(), fs.drop_first()) + rest;
        let s = fields_bytes(sch, cs, fs) + rest;
        assert(s =~= b + tail);
        lemma_field_round_trip(sch, k, cs[0], t, fs[0], tail);
        assert(s.subrange(b.len() as int, s.len() as int) =~= tail);
        lemma_fields_round_trip(sch, k, cs.drop_first(), t, fs.drop_first(), rest);
        assert(seq![fs[0]] + fs.drop_first() =~= fs);
    }
}

proof fn lemma_field_round_trip(sch: Seq<LayoutView>, k: nat, c: LeafCodec, t: Seq<(u64, Seq<char>)>, f: FieldView, rest: Seq<u8>)
    requires
        field_fits(sch, k, c, f),
        field_agrees(t, f),
    ensures
        decode_field(sch, k, c, t, field_bytes(sch, c, f) + rest) == Ok::<(FieldView, nat), DecodeError>((f, field_bytes(sch, c, f).len())),
    decreases f, 0nat,
{
    match f {
        FieldView::Unsigned(n) => lemma_varint_round_trip(n, rest),
        FieldView::Resolved(id, _) => lemma_varint_round_trip(id, rest),
        FieldView::Bytes(b) => lemma_byte_string_round_trip(b, rest),
        FieldView::Nested(w) => {
            if let LeafCodec::Nested(j) = c {
                lemma_value_round_trip(sch, j as nat, t, w, rest);
            }
        },
    }
}

/// Decoding what was encoded gives back the value and takes exactly the
/// encoded bytes, whatever follows them, for every shape the schema can
/// describe, nested values included, under any context that resolves each
/// resolved field's id to that field's value (any context at all where the
/// value holds no such field).
pub proof fn lemma_round_trip(schema: Schema, k: usize, v: Value, ctx: LookupTable, rest: Seq<u8>)
    requires
        value_fits(schema@, k as nat, v@),
        value_agrees(ctx@, v@),
    ensures
        decode_type(schema@, k as nat, ctx@, encoding(schema@, k as nat, v@) + rest)
            == Ok::<(ValueView, nat), DecodeError>((v@, encoding(schema@, k as nat, v@).len())),
{
    lemma_value_round_trip(schema@, k as nat, ctx@, v@, rest);
}

/// For an enum, a leading discriminant `d` selects the variant declared at
/// index `d` and reads that variant's fields after it; a discriminant past
/// the last variant fails with the unknown-discriminant error.
pub proof fn lemma_discriminant_dispatch(schema: Schema, k: usize, ctx: LookupTable, d: u64, rest: Seq<u8>)
    requires
        k < schema@.len(),
        schema@[k as int].tagged,
    ensures
        d >= schema@[k as int].arms.len() ==> decode_type(schema@, k as nat, ctx@, varint_bytes(d) + rest)
            == Err::<(ValueView, nat), DecodeError>(DecodeError::UnknownDiscriminant(d)),
        d < schema@[k as int].arms.len() ==> match (
            decode_type(schema@, k as nat, ctx@, varint_bytes(d) + rest),
            decode_fields(schema@, k as nat, schema@[k as int].arms[d as int], ctx@, rest),
        ) {
            (Ok((v, n)), Ok((fs, m))) => v.arm == d && v.fields == fs && n == varint_bytes(d).len() + m,
            (Err(e), Err(f)) => e == f,
            _ => false,
        },
{
    let s = varint_bytes(d) + rest;
    lemma_varint_round_trip(d, rest);
    assert(s.subrange(varint_bytes(d).len() as int, s.len() as int) =~= rest);
}

/// A field that travels as an id decodes to what the context resolves the id
/// to, whatever else was encoded for it; an id that the context does not
/// resolve fails with the unknown-id error.
pub proof fn lemma_context_resolution(schema: Schema, k: usize, ctx: LookupTable, id: u64, rest: Seq<u8>)
    ensures
        lookup_in(ctx@, id) matches Some(text) ==> decode_field(schema@, k as nat, LeafCodec::ById, ctx@, varint_bytes(id) + rest)
            == Ok::<(FieldView, nat), DecodeError>((FieldView::Resolved(id, text), varint_bytes(id).len())),
        lookup_in(ctx@, id) is None ==> decode_field(schema@, k as nat, LeafCodec::ById, ctx@, varint_bytes(id) + rest)
            == Err::<(FieldView, nat), DecodeError>(DecodeError::UnknownId(id)),
{
    lemma_varint_round_trip(id, rest);
}

proof fn lemma_fields_view_index(fs: Seq<FieldValue>)
    ensures
        fields_view(fs).len() == fs.len(),
        forall|i: int| 0 <= i < fs.len() ==> fields_view(fs)[i] == field_view(#[trigger] fs[i]),
    decreases fs.len(),
{
    if fs.len() > 0 {
        lemma_fields_view_index(fs.drop_first());
        assert forall|i: int| 0 <= i < fs.len() implies fields_view(fs)[i] == field_view(#[trigger] fs[i]) by {
            if i > 0 {
                assert(fs.drop_first()[i - 1] == fs[i]);
            }
        }
    }
}

proof fn lemma_fields_fit_index(sch: Seq<LayoutView>, k: nat, cs: Seq<LeafCodec>, fs: Seq<FieldView>)
    requires
        fields_fit(sch, k, cs, fs),
    ensures
        cs.len() == fs.len(),
        forall|i: int| 0 <= i < fs.len() ==> field_fits(sch, k, cs[i], #[trigger] fs[i]),
    decreases fs.len(),
{
    if fs.len() > 0 {
        lemma_fields_fit_index(sch, k, cs.drop_first(), fs.drop_first());
        assert forall|i: int| 0 <= i < fs.len() implies field_fits(sch, k, cs[i], #[trigger] fs[i]) by {
            if i > 0 {
                assert(fs.drop_first()[i - 1] == fs[i]);
                assert(cs.drop_first()[i - 1] == cs[i]);
            }
        }
    }
}

proof fn lemma_fields_bytes_append(sch: Seq<LayoutView>, cs1: Seq<LeafCodec>, fs1: Seq<FieldView>, cs2: Seq<LeafCodec>, fs2: Seq<FieldView>)
    requires
        cs1.len() == fs1.len(),
    ensures
        fields_bytes(sch, cs1 + cs2, fs1 + fs2) == fields_bytes(sch, cs1, fs1) + fields_bytes(sch, cs2, fs2),
    decreases fs1.len(),
{
    if fs1.len() == 0 {
        assert(cs1 + cs2 =~= cs2);
        assert(fs1 + fs2 =~= fs2);
    } else {
        assert((cs1 + cs2).drop_first() =~= cs1.drop_first() + cs2);
        assert((fs1 + fs2).drop_first() =~= fs1.drop_first() + fs2);
        lemma_fields_bytes_append(sch, cs1.drop_first(), fs1.drop_first(), cs2, fs2);
    }
}

fn write_field(schema: &Schema, k: usize, c: LeafCodec, f: &FieldValue, out: &mut Vec<u8>)
    requires
        field_fits(schema@, k as nat, c, f@),
    ensures
        final(out)@ == old(out)@ + field_bytes(schema@, c, f@),
    decreases f, 0nat,
{
    match f {
        FieldValue::Unsigned(n) => write_varint(out, *n),
        FieldValue::Resolved { id, text: _ } => write_varint(out, *id),
        FieldValue::Bytes(b) => write_bytes(out, b),
        FieldValue::Nested(b) => {
            if let LeafCodec::Nested(j) = c {
                write_value(schema, j, b, out);
            }
        },
    }
}

fn write_value(schema: &Schema, k: usize, v: &Value, out: &mut Vec<u8>)
    requires
        value_fits(schema@, k as nat, v@),
    ensures
        final(out)@ == old(out)@ + encoding(schema@, k as nat, v@),
    decreases v, 1nat,
{
    let ghost sch = schema@;
    let ghost start = out@;
    let layout = &schema.types[k];
    assert(layout@ == sch[k as int]);
    if layout.tagged {
        write_varint(out, v.arm as u64);
    }
    let ghost head = out@;
    let cs = if layout.tagged { &layout.arms[v.arm] } else { &layout.arms[0] };
    let ghost fv = v@.fields;
    assert(cs@ == arm_codecs(sch, k as nat, v@));
    proof {
        lemma_fields_fit_index(sch, k as nat, cs@, fv);
        lemma_fields_view_index(v.fields@);
    }
    let n = v.fields.len();
    let mut i: usize = 0;
    assert(fields_bytes(sch, cs@.subrange(0, 0), fv.subrange(0, 0)) == Seq::<u8>::empty());
    assert(head + Seq::<u8>::empty() =~= head);
    while i < n
        invariant
            n == v.fields@.len(),
            n == fv.len(),
            n == cs@.len(),
            sch == schema@,
            fv == v@.fields,
            fv == fields_view(v.fields@),
            forall|j: int| 0 <= j < n ==> fv[j] == field_view(#[trigger] v.fields@[j]),
            forall|j: int| 0 <= j < n ==> field_fits(sch, k as nat, cs@[j], #[trigger] fv[j]),
            i <= n,
            out@ == head + fields_bytes(sch, cs@.subrange(0, i as int), fv.subrange(0, i as int)),
        decreases n - i,
    {
        assert(fv[i as int] == v.fields@[i as int]@);
        write_field(schema, k, cs[i], &v.fields[i], out);
        proof {
            let c1 = seq![cs@[i as int]];
            let f1 = seq![fv[i as int]];
            assert(cs@.subrange(0, i + 1) =~= cs@.subrange(0, i as int) + c1);
            assert(fv.subrange(0, i + 1) =~= fv.subrange(0, i as int) + f1);
            lemma_fields_bytes_append(sch, cs@.subrange(0, i as int), fv.subrange(0, i as int), c1, f1);
            assert(f1.drop_first() =~= Seq::<FieldView>::empty());
            assert(fields_bytes(sch, c1.drop_first(), f1.drop_first()) == Seq::<u8>::empty());
            assert(fields_bytes(sch, c1, f1) =~= field_bytes(sch, cs@[i as int], fv[i as int]));
        }
        i = i + 1;
    }
    assert(cs@.subrange(0, n as int) =~= cs@);
    assert(fv.subrange(0, n as int) =~= fv);
    proof {
        if sch[k as int].tagged {
            assert(out@ =~= start + encoding(sch, k as nat, v@));
        } else {
            assert(out@ =~= start + encoding(sch, k as nat, v@));
        }
    }
}

/// Writes `v` as a value of type `k` of the schema: the discriminant first
/// for an enum, then each field in declaration order, a nested value as its
/// own bytes.
pub fn encode_value(schema: &Schema, k: usize, v: &Value) -> (r: Vec<u8>)
    requires
        value_fits(schema@, k as nat, v@),
    ensures
        r@ == encoding(schema@, k as nat, v@),
{
    let mut out: Vec<u8> = Vec::new();
    write_value(schema, k, v, &mut out);
    assert(out@ =~= encoding(schema@, k as nat, v@));
    out
}

fn read_field(schema: &Schema, k: usize, c: LeafCodec, ctx: &LookupTable, bytes: &Vec<u8>, pos: usize) -> (r: Result<(FieldValue, usize), DecodeError>)
    requires
        pos <= bytes@.len(),
    ensures
        match (r, decode_field(schema@, k as nat, c, ctx@, bytes@.subrange(pos as int, bytes@.len() as int))) {
            (Ok((f, p)), Ok((g, m))) => f@ == g && p == pos + m && p <= bytes@.len(),
            (Err(e), Err(d)) => e == d,
            _ => false,
        },
    decreases k, 0nat, 0nat,
{
    match c {
        LeafCodec::Unsigned => match read_varint(bytes, pos) {
            None => Err(DecodeError::InvalidInteger),
            Some((n, p)) => Ok((FieldValue::Unsigned(n), p)),
        },
        LeafCodec::ById => match read_varint(bytes, pos) {
            None => Err(DecodeError::InvalidInteger),
            Some((n, p)) => match ctx.lookup(n) {
                None => Err(DecodeError::UnknownId(n)),
                Some(text) => Ok((FieldValue::Resolved { id: n, text }, p)),
            },
        },
        LeafCodec::Bytes => match read_varint(bytes, pos) {
            None => Err(DecodeError::InvalidInteger),
            Some((len, p)) => {
                if len > (bytes.len() - p) as u64 {
                    return Err(DecodeError::Truncated);
                }
                let (b, q) = read_bytes(bytes, pos);
                proof {
                    let s = bytes@.subrange(pos as int, bytes@.len() as int);
                    assert(b@ =~= s.subrange((p - pos) as int, (p - pos + len) as int));
                }
                Ok((FieldValue::Bytes(b), q))
            },
        },
        LeafCodec::Nested(j) => {
            if j >= k {
                return Err(DecodeError::InvalidLayout);
            }
            match read_value(schema, j, ctx, bytes, pos) {
                Err(e) => Err(e),
                Ok((w, p)) => Ok((FieldValue::Nested(Box::new(w)), p)),
            }
        },
    }
}

fn read_fields(schema: &Schema, k: usize, cs: &Vec<LeafCodec>, i: usize, ctx: &LookupTable, bytes: &Vec<u8>, pos: usize) -> (r: Result<(Vec<FieldValue>, usize), DecodeError>)
    requires
        i <= cs@.len(),
        pos <= bytes@.len(),
    ensures
        match (r, decode_fields(schema@, k as nat, cs@.subrange(i as int, cs@.len() as int), ctx@, bytes@.subrange(pos as int, bytes@.len() as int))) {
            (Ok((fs, p)), Ok((gs, m))) => fields_view(fs@) == gs && p == pos + m && p <= bytes@.len(),
            (Err(e), Err(d)) => e == d,
            _ => false,
        },
    decreases k, 1nat, cs@.len() - i,
{
    let ghost rest = cs@.subrange(i as int, cs@.len() as int);
    let ghost s = bytes@.subrange(pos as int, bytes@.len() as int);
    if i == cs.len() {
        let fs: Vec<FieldValue> = Vec::new();
        assert(fields_view(fs@) =~= Seq::<FieldView>::empty());
        return Ok((fs, pos));
    }
    assert(rest[0] == cs@[i as int]);
    assert(rest.drop_first() =~= cs@.subrange(i + 1, cs@.len() as int));
    match read_field(schema, k, cs[i], ctx, bytes, pos) {
        Err(e) => Err(e),
        Ok((f, p)) => {
            assert(bytes@.subrange(p as int, bytes@.len() as int) =~= s.subrange(p - pos, s.len() as int));
            match read_fields(schema, k, cs, i + 1, ctx, bytes, p) {
                Err(e) => Err(e),
                Ok((mut fs, q)) => {
                    let ghost tail = fs@;
                    fs.insert(0, f);
                    assert(fs@.drop_first() =~= tail);
                    assert(fs@[0] == f);
                    assert(fields_view(fs@) =~= seq![f@] + fields_view(tail));
                    Ok((fs, q))
                },
            }
        },
    }
}

fn read_value(schema: &Schema, k: usize, ctx: &LookupTable, bytes: &Vec<u8>, pos: usize) -> (r: Result<(Value, usize), DecodeError>)
    requires
        pos <= bytes@.len(),
    ensures
        match (r, decode_type(schema@, k as nat, ctx@, bytes@.subrange(pos as int, bytes@.len() as int))) {
            (Ok((v, p)), Ok((w, m))) => v@ == w && p == pos + m && p <= bytes@.len(),
            (Err(e), Err(d)) => e == d,
            _ => false,
        },
    decreases k, 2nat, 0nat,
{
    if k >= schema.types.len() {
        return Err(DecodeError::InvalidLayout);
    }
    let layout = &schema.types[k];
    assert(layout@ == schema@[k as int]);
    if layout.tagged {
        match read_varint(bytes, pos) {
            None => Err(DecodeError::InvalidInteger),
            Some((d, p)) => {
                if d >= layout.arms.len() as u64 {
                    return Err(DecodeError::UnknownDiscriminant(d));
                }
                let arm = d as usize;
                let cs = &layout.arms[arm];
                assert(cs@.subrange(0, cs@.len() as int) =~= cs@);
                let ghost s = bytes@.subrange(pos as int, bytes@.len() as int);
                assert(bytes@.subrange(p as int, bytes@.len() as int) =~= s.subrange(p - pos, s.len() as int));
                match read_fields(schema, k, cs, 0, ctx, bytes, p) {
                    Err(e) => Err(e),
                    Ok((fields, q)) => Ok((Value { arm, fields }, q)),
                }
            },
        }
    } else {
        if layout.arms.len() != 1 {
            return Err(DecodeError::InvalidLayout);
        }
        let cs = &layout.arms[0];
        assert(cs@.subrange(0, cs@.len() as int) =~= cs@);
        match read_fields(schema, k, cs, 0, ctx, bytes, pos) {
            Err(e) => Err(e),
            Ok((fields, q)) => Ok((Value { arm: 0, fields }, q)),
        }
    }
}

/// Reads a value of type `k` of the schema from the front of `bytes`,
/// resolving ids through `ctx`; returns it with the number of bytes it took.
pub fn decode_value(schema: &Schema, k: usize, ctx: &LookupTable, bytes: &Vec<u8>) -> (r: Result<(Value, usize), DecodeError>)
    ensures
        match (r, decode_type(schema@, k as nat, ctx@, bytes@)) {
            (Ok((v, n)), Ok((w, m))) => v@ == w && n == m,
            (Err(e), Err(d)) => e == d,
            _ => false,
        },
{
    assert(bytes@.subrange(0, bytes@.len() as int) =~= bytes@);
    read_value(schema, k, ctx, bytes, 0)
}

/// Each field's own bytes, in declaration order.
pub open spec fn field_pieces(sch: Seq<LayoutView>, cs: Seq<LeafCodec>, fs: Seq<FieldView>) -> Seq<Seq<u8>> {
    Seq::new(fs.len(), |i: int| field_bytes(sch, cs[i], fs[i]))
}

proof fn lemma_fields_bytes_pieces(sch: Seq<LayoutView>, cs: Seq<LeafCodec>, fs: Seq<FieldView>)
    requires
        cs.len() == fs.len(),
    ensures
        fields_bytes(sch, cs, fs) == field_pieces(sch, cs, fs).flatten(),
    decreases fs.len(),
{
    if fs.len() > 0 {
        lemma_fields_bytes_pieces(sch, cs.drop_first(), fs.drop_first());
        assert(field_pieces(sch, cs, fs).drop_first() =~= field_pieces(sch, cs.drop_first(), fs.drop_first()));
    }
}

/// The bytes of a value are its discriminant, for an enum, followed by the
/// concatenation of each field's own bytes in declaration order.
pub proof fn lemma_field_order(schema: Schema, k: usize, v: Value)
    requires
        value_fits(schema@, k as nat, v@),
    ensures
        encoding(schema@, k as nat, v@) == (if schema@[k as int].tagged { varint_bytes(v@.arm) } else { Seq::<u8>::empty() })
            + field_pieces(schema@, arm_codecs(schema@, k as nat, v@), v@.fields).flatten(),
{
    let sch = schema@;
    let cs = arm_codecs(sch, k as nat, v@);
    lemma_fields_fit_index(sch, k as nat, cs, v@.fields);
    lemma_fields_bytes_pieces(sch, cs, v@.fields);
    if !sch[k as int].tagged {
        assert(Seq::<u8>::empty() + fields_bytes(sch, cs, v@.fields) =~= fields_bytes(sch, cs, v@.fields));
    }
}

} // verus!
