//! The input decoder: binds a wire-format input value to a typed record
//! against an object descriptor, or reports the first failure, in
//! declaration order of the fields.
//!
//! For each field the decoder looks its wire name up in the input mapping.
//! A present, non-null value is decoded by the field's type; an absent or
//! null one falls back to the field's default, and a field with no default
//! is missing. Fixed-length sequence input must be sequence-shaped and of
//! exactly the declared length, and its elements are decoded in order,
//! stopping at the first failing element. Errors from inside a field are
//! wrapped with that field's wire name, so a path can be attributed as the
//! recursion unwinds.

use vstd::prelude::*;

use crate::descriptor::{
    spec_wire_name, DefaultValue, FieldDescriptor, ObjectDescriptor, TypeDescriptor,
};
use crate::descriptor::field_wire_name;
use crate::rename::RenamePolicy;
use crate::value::{
    clone_decoded, lemma_view_entries_len, lemma_view_values_len, view_decoded, view_decoded_seq,
    view_entries, view_record_fields, view_value, view_values, DecodedRecord, DecodedValue,
    InputValue, MapEntry, RecordField, ScalarValue, SpecDecoded, SpecEntry, SpecField, SpecScalar,
    SpecValue,
};

verus! {

/// A structured decode failure. All of these are recoverable at the
/// executor boundary; the nested variants carry the path back to the field
/// that failed.
#[derive(Debug, PartialEq)]
pub enum DecodeError {
    /// A required field's wire name was absent (or null) and the field has
    /// no default.
    MissingField { field: String },
    /// The input's shape does not match the expected type.
    TypeMismatch,
    /// A fixed-length sequence field received the wrong number of elements.
    ArrayLengthMismatch { expected: usize, actual: usize },
    /// An element of a sequence field failed to decode.
    ElementTypeMismatch { index: usize, cause: Box<DecodeError> },
    /// A failure inside a field, wrapped with that field's wire name.
    NestedFieldError { field: String, cause: Box<DecodeError> },
}

/// Model of a [`DecodeError`].
pub enum SpecErr {
    MissingField { field: Seq<char> },
    TypeMismatch,
    ArrayLengthMismatch { expected: int, actual: int },
    ElementTypeMismatch { index: int, cause: Box<SpecErr> },
    NestedFieldError { field: Seq<char>, cause: Box<SpecErr> },
}

pub open spec fn view_err(e: DecodeError) -> SpecErr
    decreases e,
{
    match e {
        DecodeError::MissingField { field } => SpecErr::MissingField { field: field@ },
        DecodeError::TypeMismatch => SpecErr::TypeMismatch,
        DecodeError::ArrayLengthMismatch { expected, actual } => SpecErr::ArrayLengthMismatch {
            expected: expected as int,
            actual: actual as int,
        },
        DecodeError::ElementTypeMismatch { index, cause } => SpecErr::ElementTypeMismatch {
            index: index as int,
            cause: Box::new(view_err(*cause)),
        },
        DecodeError::NestedFieldError { field, cause } => SpecErr::NestedFieldError {
            field: field@,
            cause: Box::new(view_err(*cause)),
        },
    }
}

impl View for DecodeError {
    type V = SpecErr;

    open spec fn view(&self) -> SpecErr {
        view_err(*self)
    }
}

/// First-match lookup in a wire mapping, from entry `i` on.
pub open spec fn lookup_from(es: Seq<SpecEntry>, k: Seq<char>, i: int) -> Option<SpecValue>
    decreases es.len() - i,
{
    if i < 0 || i >= es.len() {
        Option::None
    } else if es[i].key == k {
        Option::Some(es[i].value)
    } else {
        lookup_from(es, k, i + 1)
    }
}

/// First-match lookup in a wire mapping.
pub open spec fn spec_lookup(es: Seq<SpecEntry>, k: Seq<char>) -> Option<SpecValue> {
    lookup_from(es, k, 0)
}

/// What applying a field's default yields when its wire name is absent or
/// null: the literal, the type's absence value, or a missing-field error.
pub open spec fn spec_default_value(f: FieldDescriptor, w: Seq<char>) -> Result<
    SpecDecoded,
    SpecErr,
> {
    match f.default {
        DefaultValue::Literal(v) => Result::Ok(view_decoded(v)),
        DefaultValue::TypeAbsence => Result::Ok(SpecDecoded::Absent),
        DefaultValue::NoDefault => Result::Err(SpecErr::MissingField { field: w }),
    }
}

/// What [`decode_value`] returns for one type descriptor and one input
/// value.
pub open spec fn spec_decode_value(td: TypeDescriptor, v: SpecValue) -> Result<
    SpecDecoded,
    SpecErr,
>
    decreases td, 0int,
{
    match td {
        TypeDescriptor::Int => match v {
            SpecValue::Scalar(SpecScalar::Int(i)) => Result::Ok(SpecDecoded::Int(i)),
            _ => Result::Err(SpecErr::TypeMismatch),
        },
        TypeDescriptor::Boolean => match v {
            SpecValue::Scalar(SpecScalar::Boolean(b)) => Result::Ok(SpecDecoded::Boolean(b)),
            _ => Result::Err(SpecErr::TypeMismatch),
        },
        TypeDescriptor::Str => match v {
            SpecValue::Scalar(SpecScalar::Str(s)) => Result::Ok(SpecDecoded::Str(s)),
            _ => Result::Err(SpecErr::TypeMismatch),
        },
        TypeDescriptor::Opaque(_) => Result::Err(SpecErr::TypeMismatch),
        TypeDescriptor::Optional(t) => if v is Null {
            Result::Ok(SpecDecoded::Absent)
        } else {
            match spec_decode_value(*t, v) {
                Result::Ok(d) => Result::Ok(SpecDecoded::Present(Box::new(d))),
                Result::Err(e) => Result::Err(e),
            }
        },
        TypeDescriptor::FixedArray(t, n) => match v {
            SpecValue::Sequence(vs) => if vs.len() != n as int {
                Result::Err(
                    SpecErr::ArrayLengthMismatch { expected: n as int, actual: vs.len() as int },
                )
            } else {
                match spec_decode_elems(*t, vs, 0) {
                    Result::Ok(ds) => Result::Ok(SpecDecoded::Sequence(ds)),
                    Result::Err(e) => Result::Err(e),
                }
            },
            _ => Result::Err(SpecErr::TypeMismatch),
        },
        TypeDescriptor::Object(od) => match v {
            SpecValue::Mapping(es) => match spec_decode_fields(
                od.fields@,
                od.rename_policy,
                es,
            ) {
                Result::Ok(fs) => Result::Ok(SpecDecoded::Record(fs)),
                Result::Err(e) => Result::Err(e),
            },
            _ => Result::Err(SpecErr::TypeMismatch),
        },
    }
}

/// Elementwise decoding of a sequence, short-circuiting at the first
/// failing element; `k` is the index of the first element within the whole
/// sequence.
pub open spec fn spec_decode_elems(t: TypeDescriptor, vs: Seq<SpecValue>, k: int) -> Result<
    Seq<SpecDecoded>,
    SpecErr,
>
    decreases t, vs.len() + 1,
{
    if vs.len() == 0 {
        Result::Ok(Seq::empty())
    } else {
        match spec_decode_value(t, vs[0]) {
            Result::Err(e) => Result::Err(
                SpecErr::ElementTypeMismatch { index: k, cause: Box::new(e) },
            ),
            Result::Ok(d) => match spec_decode_elems(t, vs.skip(1), k + 1) {
                Result::Err(e) => Result::Err(e),
                Result::Ok(ds) => Result::Ok(seq![d] + ds),
            },
        }
    }
}

/// What decoding one field yields: look the wire name up; decode a present
/// non-null value by the field's type, wrapping a failure with the wire
/// name; fall back to the default otherwise.
pub open spec fn spec_decode_field(
    f: FieldDescriptor,
    policy: RenamePolicy,
    es: Seq<SpecEntry>,
) -> Result<SpecDecoded, SpecErr>
    decreases f, 1int,
{
    let w = spec_wire_name(f, policy);
    match spec_lookup(es, w) {
        Option::None => spec_default_value(f, w),
        Option::Some(v) => if v is Null {
            spec_default_value(f, w)
        } else {
            match spec_decode_value(f.type_descriptor, v) {
                Result::Ok(d) => Result::Ok(d),
                Result::Err(e) => Result::Err(
                    SpecErr::NestedFieldError { field: w, cause: Box::new(e) },
                ),
            }
        },
    }
}

/// Decoding of a field list against a wire mapping, fail-fast in
/// declaration order.
pub open spec fn spec_decode_fields(
    fields: Seq<FieldDescriptor>,
    policy: RenamePolicy,
    es: Seq<SpecEntry>,
) -> Result<Seq<SpecField>, SpecErr>
    decreases fields, 2int,
{
    if fields.len() == 0 {
        Result::Ok(Seq::empty())
    } else {
        match spec_decode_field(fields[0], policy, es) {
            Result::Err(e) => Result::Err(e),
            Result::Ok(d) => match spec_decode_fields(fields.skip(1), policy, es) {
                Result::Err(e) => Result::Err(e),
                Result::Ok(rest) => Result::Ok(
                    seq![SpecField { name: fields[0].source_name@, value: d }] + rest,
                ),
            },
        }
    }
}

/// What [`decode`] returns: an object is decoded from the mapping variant
/// and from nothing else.
pub open spec fn spec_decode_input(od: ObjectDescriptor, v: SpecValue) -> Result<
    Seq<SpecField>,
    SpecErr,
> {
    match v {
        SpecValue::Mapping(es) => spec_decode_fields(od.fields@, od.rename_policy, es),
        _ => Result::Err(SpecErr::TypeMismatch),
    }
}

/// The view of a value-decoding result.
pub open spec fn res_view(r: Result<DecodedValue, DecodeError>) -> Result<SpecDecoded, SpecErr> {
    match r {
        Result::Ok(d) => Result::Ok(d@),
        Result::Err(e) => Result::Err(e@),
    }
}

/// The view of a record-decoding result.
pub open spec fn record_res_view(r: Result<DecodedRecord, DecodeError>) -> Result<
    Seq<SpecField>,
    SpecErr,
> {
    match r {
        Result::Ok(rec) => Result::Ok(rec@),
        Result::Err(e) => Result::Err(e@),
    }
}

/// The view of a field-list-decoding result.
pub open spec fn fields_res_view(r: Result<Vec<RecordField>, DecodeError>) -> Result<
    Seq<SpecField>,
    SpecErr,
> {
    match r {
        Result::Ok(fs) => Result::Ok(view_record_fields(fs@)),
        Result::Err(e) => Result::Err(e@),
    }
}

/// Looks a wire name up in a mapping, first match wins.
#[verifier::loop_isolation(false)]
fn lookup_entry<'a>(es: &'a Vec<MapEntry>, k: &String) -> (r: Option<&'a InputValue>)
    ensures
        match r {
            Option::Some(v) => spec_lookup(view_entries(es@), k@) == Option::Some(view_value(*v)),
            Option::None => spec_lookup(view_entries(es@), k@) is None,
        },
{
    proof {
        lemma_view_entries_len(es@);
    }
    let ghost ves = view_entries(es@);
    let mut i: usize = 0;
    while i < es.len()
        invariant
            0 <= i <= es@.len(),
            spec_lookup(ves, k@) == lookup_from(ves, k@, i as int),
        decreases es@.len() - i,
    {
        let e = &es[i];
        if e.key == *k {
            return Option::Some(&e.value);
        }
        i = i + 1;
    }
    Option::None
}

/// Decodes one input value by a type descriptor: the executable form of
/// [`spec_decode_value`], total over all inputs and descriptors.
#[verifier::loop_isolation(false)]
pub fn decode_value(td: &TypeDescriptor, v: &InputValue) -> (r: Result<DecodedValue, DecodeError>)
    ensures
        res_view(r) == spec_decode_value(*td, v@),
    decreases *td,
{
    match td {
        TypeDescriptor::Int => match v {
            InputValue::Scalar(ScalarValue::Int(i)) => Result::Ok(DecodedValue::Int(*i)),
            _ => Result::Err(DecodeError::TypeMismatch),
        },
        TypeDescriptor::Boolean => match v {
            InputValue::Scalar(ScalarValue::Boolean(b)) => Result::Ok(DecodedValue::Boolean(*b)),
            _ => Result::Err(DecodeError::TypeMismatch),
        },
        TypeDescriptor::Str => match v {
            InputValue::Scalar(ScalarValue::Str(s)) => Result::Ok(DecodedValue::Str(s.clone())),
            _ => Result::Err(DecodeError::TypeMismatch),
        },
        TypeDescriptor::Opaque(_) => Result::Err(DecodeError::TypeMismatch),
        TypeDescriptor::Optional(t) => {
            if matches!(v, InputValue::Null) {
                Result::Ok(DecodedValue::Absent)
            } else {
                match decode_value(t, v) {
                    Result::Ok(d) => Result::Ok(DecodedValue::Present(Box::new(d))),
                    Result::Err(e) => Result::Err(e),
                }
            }
        },
        TypeDescriptor::FixedArray(t, n) => match v {
            InputValue::Sequence(vs) => {
                proof {
                    lemma_view_values_len(vs@);
                }
                let ghost vvs = view_values(vs@);
                if vs.len() != *n {
                    Result::Err(
                        DecodeError::ArrayLengthMismatch { expected: *n, actual: vs.len() },
                    )
                } else {
                    let mut out: Vec<DecodedValue> = Vec::new();
                    let mut i: usize = 0;
                    proof {
                        assert(vvs.skip(0) =~= vvs);
                        assert(view_decoded_seq(out@) =~= Seq::<SpecDecoded>::empty());
                    }
                    while i < vs.len()
                        invariant
                            0 <= i <= vs@.len(),
                            out@.len() == i,
                            spec_decode_elems(**t, vvs, 0) == (match spec_decode_elems(
                                **t,
                                vvs.skip(i as int),
                                i as int,
                            ) {
                                Result::Ok(rest) => Result::<Seq<SpecDecoded>, SpecErr>::Ok(
                                    view_decoded_seq(out@) + rest,
                                ),
                                Result::Err(e) => Result::Err(e),
                            }),
                        decreases vs@.len() - i,
                    {
                        let ghost pre = vvs.skip(i as int);
                        proof {
                            assert(pre[0] == vvs[i as int]);
                            assert(pre.skip(1) =~= vvs.skip(i + 1));
                        }
                        match decode_value(t, &vs[i]) {
                            Result::Err(e) => {
                                return Result::Err(
                                    DecodeError::ElementTypeMismatch {
                                        index: i,
                                        cause: Box::new(e),
                                    },
                                );
                            },
                            Result::Ok(d) => {
                                let ghost old_out = out@;
                                out.push(d);
                                proof {
                                    assert(out@.drop_last() =~= old_out);
                                    assert(view_decoded_seq(out@) =~= view_decoded_seq(old_out)
                                        + seq![d@]);
                                    if let Result::Ok(rest) = spec_decode_elems(
                                        **t,
                                        vvs.skip(i + 1),
                                        i + 1,
                                    ) {
                                        assert(view_decoded_seq(old_out) + (seq![d@] + rest)
                                            =~= view_decoded_seq(out@) + rest);
                                    }
                                }
                            },
                        }
                        i = i + 1;
                    }
                    proof {
                        assert(vvs.skip(vs@.len() as int) =~= Seq::<SpecValue>::empty());
                        assert(view_decoded_seq(out@) + Seq::<SpecDecoded>::empty()
                            =~= view_decoded_seq(out@));
                    }
                    Result::Ok(DecodedValue::Sequence(out))
                }
            },
            _ => Result::Err(DecodeError::TypeMismatch),
        },
        TypeDescriptor::Object(od) => match v {
            InputValue::Mapping(es) => match decode_fields(&od.fields, od.rename_policy, es) {
                Result::Ok(fs) => Result::Ok(DecodedValue::Record(DecodedRecord { fields: fs })),
                Result::Err(e) => Result::Err(e),
            },
            _ => Result::Err(DecodeError::TypeMismatch),
        },
    }
}

/// Decodes every declared field against a wire mapping, in declaration
/// order, stopping at the first failure.
#[verifier::loop_isolation(false)]
pub fn decode_fields(
    fields: &Vec<FieldDescriptor>,
    policy: RenamePolicy,
    es: &Vec<MapEntry>,
) -> (r: Result<Vec<RecordField>, DecodeError>)
    ensures
        fields_res_view(r) == spec_decode_fields(fields@, policy, view_entries(es@)),
    decreases fields@,
{
    let ghost ves = view_entries(es@);
    let mut out: Vec<RecordField> = Vec::new();
    let mut i: usize = 0;
    proof {
        assert(fields@.skip(0) =~= fields@);
        assert(view_record_fields(out@) =~= Seq::<SpecField>::empty());
    }
    while i < fields.len()
        invariant
            0 <= i <= fields@.len(),
            out@.len() == i,
            spec_decode_fields(fields@, policy, ves) == (match spec_decode_fields(
                fields@.skip(i as int),
                policy,
                ves,
            ) {
                Result::Ok(rest) => Result::<Seq<SpecField>, SpecErr>::Ok(
                    view_record_fields(out@) + rest,
                ),
                Result::Err(e) => Result::Err(e),
            }),
        decreases fields@.len() - i,
    {
        let ghost pre = fields@.skip(i as int);
        proof {
            assert(pre[0] == fields@[i as int]);
            assert(pre.skip(1) =~= fields@.skip(i + 1));
        }
        let f = &fields[i];
        let w = field_wire_name(f, policy);
        let dv: DecodedValue = match lookup_entry(es, &w) {
            Option::None => match &f.default {
                DefaultValue::Literal(v) => clone_decoded(v),
                DefaultValue::TypeAbsence => DecodedValue::Absent,
                DefaultValue::NoDefault => {
                    proof {
                        assert(spec_decode_field(pre[0], policy, ves)
                            == Result::<SpecDecoded, SpecErr>::Err(
                            SpecErr::MissingField { field: w@ },
                        ));
                    }
                    return Result::Err(DecodeError::MissingField { field: w });
                },
            },
            Option::Some(val) => {
                if matches!(val, InputValue::Null) {
                    match &f.default {
                        DefaultValue::Literal(v) => clone_decoded(v),
                        DefaultValue::TypeAbsence => DecodedValue::Absent,
                        DefaultValue::NoDefault => {
                            proof {
                                assert(spec_decode_field(pre[0], policy, ves)
                                    == Result::<SpecDecoded, SpecErr>::Err(
                                    SpecErr::MissingField { field: w@ },
                                ));
                            }
                            return Result::Err(DecodeError::MissingField { field: w });
                        },
                    }
                } else {
                    match decode_value(&f.type_descriptor, val) {
                        Result::Ok(d) => d,
                        Result::Err(e) => {
                            return Result::Err(
                                DecodeError::NestedFieldError { field: w, cause: Box::new(e) },
                            );
                        },
                    }
                }
            },
        };
        let ghost old_out = out@;
        let ghost sf = SpecField { name: f.source_name@, value: dv@ };
        out.push(RecordField { name: f.source_name.clone(), value: dv });
        proof {
            assert(out@.drop_last() =~= old_out);
            assert(view_record_fields(out@) =~= view_record_fields(old_out) + seq![sf]);
            if let Result::Ok(rest) = spec_decode_fields(fields@.skip(i + 1), policy, ves) {
                assert(view_record_fields(old_out) + (seq![sf] + rest) =~= view_record_fields(
                    out@,
                ) + rest);
            }
        }
        i = i + 1;
    }
    proof {
        assert(fields@.skip(fields@.len() as int) =~= Seq::<FieldDescriptor>::empty());
        assert(view_record_fields(out@) + Seq::<SpecField>::empty() =~= view_record_fields(out@));
    }
    Result::Ok(out)
}

/// Decodes a wire-format input value into a typed record against an object
/// descriptor. The input must be mapping-shaped; decoding is fail-fast: the
/// first failing field, in declaration order, aborts the whole decode.
pub fn decode(input: &InputValue, od: &ObjectDescriptor) -> (r: Result<DecodedRecord, DecodeError>)
    ensures
        record_res_view(r) == spec_decode_input(*od, input@),
{
    match input {
        InputValue::Mapping(es) => match decode_fields(&od.fields, od.rename_policy, es) {
            Result::Ok(fs) => Result::Ok(DecodedRecord { fields: fs }),
            Result::Err(e) => Result::Err(e),
        },
        _ => Result::Err(DecodeError::TypeMismatch),
    }
}

} // verus!

