//! Wire values as received from a query, typed records as handed back, and
//! the mathematical models of both.
//!
//! The executable types (`InputValue`, `DecodedValue`, `DecodedRecord`) are
//! what callers construct and receive. Each has a view onto a ghost model
//! (`SpecValue`, `SpecDecoded`) in which strings are character sequences and
//! collections are `Seq`s; all contracts of this crate are stated over those
//! models.

use vstd::prelude::*;

verus! {

/// A leaf value of the wire format.
#[derive(Debug, PartialEq)]
pub enum ScalarValue {
    Int(i64),
    Boolean(bool),
    Str(String),
}

/// One key/value entry of a wire mapping. Entries keep their order; a key is
/// looked up by first match.
#[derive(Debug, PartialEq)]
pub struct MapEntry {
    pub key: String,
    pub value: InputValue,
}

/// A wire-format input value: the tagged union handed in by the query
/// executor.
#[derive(Debug, PartialEq)]
pub enum InputValue {
    Null,
    Scalar(ScalarValue),
    Sequence(Vec<InputValue>),
    Mapping(Vec<MapEntry>),
}

/// Model of a [`ScalarValue`].
pub enum SpecScalar {
    Int(int),
    Boolean(bool),
    Str(Seq<char>),
}

/// Model of a wire mapping entry.
pub struct SpecEntry {
    pub key: Seq<char>,
    pub value: SpecValue,
}

/// Model of an [`InputValue`].
pub enum SpecValue {
    Null,
    Scalar(SpecScalar),
    Sequence(Seq<SpecValue>),
    Mapping(Seq<SpecEntry>),
}

impl View for ScalarValue {
    type V = SpecScalar;

    open spec fn view(&self) -> SpecScalar {
        match self {
            ScalarValue::Int(i) => SpecScalar::Int(*i as int),
            ScalarValue::Boolean(b) => SpecScalar::Boolean(*b),
            ScalarValue::Str(s) => SpecScalar::Str(s@),
        }
    }
}

pub open spec fn view_value(v: InputValue) -> SpecValue
    decreases v,
{
    match v {
        InputValue::Null => SpecValue::Null,
        InputValue::Scalar(s) => SpecValue::Scalar(s@),
        InputValue::Sequence(vs) => SpecValue::Sequence(view_values(vs@)),
        InputValue::Mapping(es) => SpecValue::Mapping(view_entries(es@)),
    }
}

pub open spec fn view_values(vs: Seq<InputValue>) -> Seq<SpecValue>
    decreases vs,
{
    if vs.len() == 0 {
        Seq::empty()
    } else {
        view_values(vs.drop_last()).push(view_value(vs.last()))
    }
}

pub open spec fn view_entries(es: Seq<MapEntry>) -> Seq<SpecEntry>
    decreases es,
{
    if es.len() == 0 {
        Seq::empty()
    } else {
        view_entries(es.drop_last()).push(
            SpecEntry { key: es.last().key@, value: view_value(es.last().value) },
        )
    }
}

impl View for InputValue {
    type V = SpecValue;

    open spec fn view(&self) -> SpecValue {
        view_value(*self)
    }
}

/// `view_values` is the elementwise view.
pub proof fn lemma_view_values_len(vs: Seq<InputValue>)
    ensures
        view_values(vs).len() == vs.len(),
        forall|i: int| 0 <= i < vs.len() ==> view_values(vs)[i] == view_value(vs[i]),
    decreases vs,
{
    if vs.len() > 0 {
        lemma_view_values_len(vs.drop_last());
    }
}

/// `view_entries` is the elementwise view.
pub proof fn lemma_view_entries_len(es: Seq<MapEntry>)
    ensures
        view_entries(es).len() == es.len(),
        forall|i: int|
            0 <= i < es.len() ==> view_entries(es)[i] == (SpecEntry {
                key: es[i].key@,
                value: view_value(es[i].value),
            }),
    decreases es,
{
    if es.len() > 0 {
        lemma_view_entries_len(es.drop_last());
    }
}

/// One field of a decoded record, under its declared identifier.
#[derive(Debug, PartialEq)]
pub struct RecordField {
    pub name: String,
    pub value: DecodedValue,
}

/// A typed value produced by decoding. `Absent` is the intrinsic empty state
/// of an optional type; `Present` wraps the inner value of an optional type
/// that was supplied.
#[derive(Debug, PartialEq)]
pub enum DecodedValue {
    Int(i64),
    Boolean(bool),
    Str(String),
    Absent,
    Present(Box<DecodedValue>),
    Sequence(Vec<DecodedValue>),
    Record(DecodedRecord),
}

/// The typed record produced by a successful decode: one value per declared
/// field, in declaration order.
#[derive(Debug, PartialEq)]
pub struct DecodedRecord {
    pub fields: Vec<RecordField>,
}

/// Model of a record field.
pub struct SpecField {
    pub name: Seq<char>,
    pub value: SpecDecoded,
}

/// Model of a [`DecodedValue`].
pub enum SpecDecoded {
    Int(int),
    Boolean(bool),
    Str(Seq<char>),
    Absent,
    Present(Box<SpecDecoded>),
    Sequence(Seq<SpecDecoded>),
    Record(Seq<SpecField>),
}

pub open spec fn view_decoded(d: DecodedValue) -> SpecDecoded
    decreases d,
{
    match d {
        DecodedValue::Int(i) => SpecDecoded::Int(i as int),
        DecodedValue::Boolean(b) => SpecDecoded::Boolean(b),
        DecodedValue::Str(s) => SpecDecoded::Str(s@),
        DecodedValue::Absent => SpecDecoded::Absent,
        DecodedValue::Present(inner) => SpecDecoded::Present(Box::new(view_decoded(*inner))),
        DecodedValue::Sequence(ds) => SpecDecoded::Sequence(view_decoded_seq(ds@)),
        DecodedValue::Record(r) => SpecDecoded::Record(view_record_fields(r.fields@)),
    }
}

pub open spec fn view_decoded_seq(ds: Seq<DecodedValue>) -> Seq<SpecDecoded>
    decreases ds,
{
    if ds.len() == 0 {
        Seq::empty()
    } else {
        view_decoded_seq(ds.drop_last()).push(view_decoded(ds.last()))
    }
}

pub open spec fn view_record_fields(fs: Seq<RecordField>) -> Seq<SpecField>
    decreases fs,
{
    if fs.len() == 0 {
        Seq::empty()
    } else {
        view_record_fields(fs.drop_last()).push(
            SpecField { name: fs.last().name@, value: view_decoded(fs.last().value) },
        )
    }
}

impl View for DecodedValue {
    type V = SpecDecoded;

    open spec fn view(&self) -> SpecDecoded {
        view_decoded(*self)
    }
}

impl View for DecodedRecord {
    type V = Seq<SpecField>;

    open spec fn view(&self) -> Seq<SpecField> {
        view_record_fields(self.fields@)
    }
}

/// `view_decoded_seq` is the elementwise view.
pub proof fn lemma_view_decoded_seq_len(ds: Seq<DecodedValue>)
    ensures
        view_decoded_seq(ds).len() == ds.len(),
        forall|i: int| 0 <= i < ds.len() ==> view_decoded_seq(ds)[i] == view_decoded(ds[i]),
    decreases ds,
{
    if ds.len() > 0 {
        lemma_view_decoded_seq_len(ds.drop_last());
    }
}

/// Copies a decoded value. Default literals are parsed once at schema-build
/// time; each decode call copies them into the fresh record through this.
#[verifier::loop_isolation(false)]
pub fn clone_decoded(d: &DecodedValue) -> (r: DecodedValue)
    ensures
        r@ == d@,
    decreases *d,
{
    match d {
        DecodedValue::Int(i) => DecodedValue::Int(*i),
        DecodedValue::Boolean(b) => DecodedValue::Boolean(*b),
        DecodedValue::Str(s) => DecodedValue::Str(s.clone()),
        DecodedValue::Absent => DecodedValue::Absent,
        DecodedValue::Present(x) => DecodedValue::Present(Box::new(clone_decoded(x))),
        DecodedValue::Sequence(ds) => {
            proof {
                lemma_view_decoded_seq_len(ds@);
            }
            let mut out: Vec<DecodedValue> = Vec::new();
            let mut i: usize = 0;
            while i < ds.len()
                invariant
                    0 <= i <= ds@.len(),
                    out@.len() == i,
                    forall|k: int| 0 <= k < i ==> view_decoded(#[trigger] out@[k]) == view_decoded(ds@[k]),
                decreases ds@.len() - i,
            {
                let c = clone_decoded(&ds[i]);
                out.push(c);
                i = i + 1;
            }
            proof {
                lemma_view_decoded_seq_len(out@);
                assert(view_decoded_seq(out@) =~= view_decoded_seq(ds@));
            }
            DecodedValue::Sequence(out)
        },
        DecodedValue::Record(rec) => {
            proof {
                lemma_view_record_fields_len(rec.fields@);
            }
            let mut out: Vec<RecordField> = Vec::new();
            let mut i: usize = 0;
            while i < rec.fields.len()
                invariant
                    0 <= i <= rec.fields@.len(),
                    out@.len() == i,
                    forall|k: int|
                        0 <= k < i ==> (#[trigger] out@[k]).name@ == rec.fields@[k].name@
                            && view_decoded(out@[k].value) == view_decoded(rec.fields@[k].value),
                decreases rec.fields@.len() - i,
            {
                let rf = &rec.fields[i];
                let c = clone_decoded(&rf.value);
                out.push(RecordField { name: rf.name.clone(), value: c });
                i = i + 1;
            }
            proof {
                lemma_view_record_fields_len(out@);
                assert(view_record_fields(out@) =~= view_record_fields(rec.fields@));
            }
            DecodedValue::Record(DecodedRecord { fields: out })
        },
    }
}

/// `view_record_fields` is the elementwise view.
pub proof fn lemma_view_record_fields_len(fs: Seq<RecordField>)
    ensures
        view_record_fields(fs).len() == fs.len(),
        forall|i: int|
            0 <= i < fs.len() ==> view_record_fields(fs)[i] == (SpecField {
                name: fs[i].name@,
                value: view_decoded(fs[i].value),
            }),
    decreases fs,
{
    if fs.len() > 0 {
        lemma_view_record_fields_len(fs.drop_last());
    }
}

} // verus!
