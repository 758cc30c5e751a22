//! The encoder: turns a typed record back into a wire-format value, and the
//! laws tying it to the decoder.
//!
//! Encoding writes one mapping entry per declared field, under the field's
//! wire name, in declaration order; a field holding the absence value is
//! written as null. The central law proved here is idempotence: a
//! successfully decoded record, encoded and decoded again, is reproduced
//! exactly.

use vstd::prelude::*;

use crate::decode::{
    lookup_from, spec_decode_elems, spec_decode_field, spec_decode_fields, spec_decode_input,
    spec_decode_value, spec_lookup, SpecErr,
};
use crate::descriptor::{
    absent_default, distinct_wires_seq, field_wf, field_wire_name, od_wf, record_fits,
    spec_wire_name, td_wf, value_fits, FieldDescriptor, ObjectDescriptor, TypeDescriptor,
};
use crate::rename::RenamePolicy;
use crate::value::{
    lemma_view_decoded_seq_len, lemma_view_record_fields_len, view_decoded_seq, view_entries,
    view_values, DecodedRecord, DecodedValue, InputValue, MapEntry, ScalarValue, SpecDecoded,
    SpecEntry, SpecField, SpecScalar, SpecValue,
};

verus! {

/// What [`encode_value`] returns for a conforming decoded value; a value
/// that does not conform encodes to null.
pub open spec fn spec_encode_value(td: TypeDescriptor, d: SpecDecoded) -> SpecValue
    decreases td, 0int,
{
    match td {
        TypeDescriptor::Int => match d {
            SpecDecoded::Int(i) => SpecValue::Scalar(SpecScalar::Int(i)),
            _ => SpecValue::Null,
        },
        TypeDescriptor::Boolean => match d {
            SpecDecoded::Boolean(b) => SpecValue::Scalar(SpecScalar::Boolean(b)),
            _ => SpecValue::Null,
        },
        TypeDescriptor::Str => match d {
            SpecDecoded::Str(s) => SpecValue::Scalar(SpecScalar::Str(s)),
            _ => SpecValue::Null,
        },
        TypeDescriptor::Opaque(_) => SpecValue::Null,
        TypeDescriptor::Optional(t) => match d {
            SpecDecoded::Absent => SpecValue::Null,
            SpecDecoded::Present(x) => spec_encode_value(*t, *x),
            _ => SpecValue::Null,
        },
        TypeDescriptor::FixedArray(t, _) => match d {
            SpecDecoded::Sequence(ds) => SpecValue::Sequence(spec_encode_elems(*t, ds)),
            _ => SpecValue::Null,
        },
        TypeDescriptor::Object(od) => match d {
            SpecDecoded::Record(fs) => SpecValue::Mapping(
                spec_encode_fields(od.fields@, od.rename_policy, fs),
            ),
            _ => SpecValue::Null,
        },
    }
}

/// Elementwise encoding of a sequence.
pub open spec fn spec_encode_elems(t: TypeDescriptor, ds: Seq<SpecDecoded>) -> Seq<SpecValue>
    decreases t, ds.len() + 1,
{
    if ds.len() == 0 {
        Seq::empty()
    } else {
        seq![spec_encode_value(t, ds[0])] + spec_encode_elems(t, ds.skip(1))
    }
}

/// Encoding of record fields against their declarations: one entry per
/// field, under its wire name, in declaration order.
pub open spec fn spec_encode_fields(
    fields: Seq<FieldDescriptor>,
    policy: RenamePolicy,
    fs: Seq<SpecField>,
) -> Seq<SpecEntry>
    decreases fields, 1int,
{
    if fields.len() == 0 || fs.len() == 0 {
        Seq::empty()
    } else {
        seq![
            SpecEntry {
                key: spec_wire_name(fields[0], policy),
                value: spec_encode_value(fields[0].type_descriptor, fs[0].value),
            },
        ] + spec_encode_fields(fields.skip(1), policy, fs.skip(1))
    }
}

/// Encodes one decoded value by a type descriptor.
#[verifier::loop_isolation(false)]
pub fn encode_value(td: &TypeDescriptor, d: &DecodedValue) -> (r: InputValue)
    ensures
        r@ == spec_encode_value(*td, d@),
    decreases *td,
{
    match td {
        TypeDescriptor::Int => match d {
            DecodedValue::Int(i) => InputValue::Scalar(ScalarValue::Int(*i)),
            _ => InputValue::Null,
        },
        TypeDescriptor::Boolean => match d {
            DecodedValue::Boolean(b) => InputValue::Scalar(ScalarValue::Boolean(*b)),
            _ => InputValue::Null,
        },
        TypeDescriptor::Str => match d {
            DecodedValue::Str(s) => InputValue::Scalar(ScalarValue::Str(s.clone())),
            _ => InputValue::Null,
        },
        TypeDescriptor::Opaque(_) => InputValue::Null,
        TypeDescriptor::Optional(t) => match d {
            DecodedValue::Absent => InputValue::Null,
            DecodedValue::Present(x) => encode_value(t, x),
            _ => InputValue::Null,
        },
        TypeDescriptor::FixedArray(t, _) => match d {
            DecodedValue::Sequence(ds) => {
                proof {
                    lemma_view_decoded_seq_len(ds@);
                }
                let ghost dsv = view_decoded_seq(ds@);
                let mut out: Vec<InputValue> = Vec::new();
                let mut i: usize = 0;
                proof {
                    assert(dsv.skip(0) =~= dsv);
                    assert(view_values(out@) =~= Seq::<SpecValue>::empty());
                }
                while i < ds.len()
                    invariant
                        0 <= i <= ds@.len(),
                        out@.len() == i,
                        spec_encode_elems(**t, dsv) == view_values(out@) + spec_encode_elems(
                            **t,
                            dsv.skip(i as int),
                        ),
                    decreases ds@.len() - i,
                {
                    let ghost pre = dsv.skip(i as int);
                    proof {
                        assert(pre[0] == dsv[i as int]);
                        assert(pre.skip(1) =~= dsv.skip(i + 1));
                    }
                    let ev = encode_value(t, &ds[i]);
                    let ghost old_out = out@;
                    out.push(ev);
                    proof {
                        assert(out@.drop_last() =~= old_out);
                        assert(view_values(out@) =~= view_values(old_out) + seq![ev@]);
                        assert(view_values(old_out) + (seq![ev@] + spec_encode_elems(
                            **t,
                            dsv.skip(i + 1),
                        )) =~= view_values(out@) + spec_encode_elems(**t, dsv.skip(i + 1)));
                    }
                    i = i + 1;
                }
                proof {
                    assert(dsv.skip(ds@.len() as int) =~= Seq::<SpecDecoded>::empty());
                    assert(view_values(out@) + Seq::<SpecValue>::empty() =~= view_values(out@));
                }
                InputValue::Sequence(out)
            },
            _ => InputValue::Null,
        },
        TypeDescriptor::Object(od) => match d {
            DecodedValue::Record(rec) => encode_record(rec, od),
            _ => InputValue::Null,
        },
    }
}

/// Encodes a typed record into a wire mapping against its descriptor.
#[verifier::loop_isolation(false)]
pub fn encode_record(record: &DecodedRecord, od: &ObjectDescriptor) -> (r: InputValue)
    ensures
        r@ == SpecValue::Mapping(spec_encode_fields(od.fields@, od.rename_policy, record@)),
    decreases *od,
{
    proof {
        lemma_view_record_fields_len(record.fields@);
    }
    let ghost fsv = record@;
    let mut out: Vec<MapEntry> = Vec::new();
    let mut i: usize = 0;
    let n = if od.fields.len() < record.fields.len() {
        od.fields.len()
    } else {
        record.fields.len()
    };
    proof {
        assert(od.fields@.skip(0) =~= od.fields@);
        assert(fsv.skip(0) =~= fsv);
        assert(view_entries(out@) =~= Seq::<SpecEntry>::empty());
    }
    while i < n
        invariant
            0 <= i <= n,
            n <= od.fields@.len(),
            n <= fsv.len(),
            n == if od.fields@.len() < fsv.len() {
                od.fields@.len()
            } else {
                fsv.len()
            },
            out@.len() == i,
            spec_encode_fields(od.fields@, od.rename_policy, fsv) == view_entries(out@)
                + spec_encode_fields(
                od.fields@.skip(i as int),
                od.rename_policy,
                fsv.skip(i as int),
            ),
        decreases n - i,
    {
        let ghost fpre = od.fields@.skip(i as int);
        let ghost vpre = fsv.skip(i as int);
        proof {
            assert(fpre[0] == od.fields@[i as int]);
            assert(vpre[0] == fsv[i as int]);
            assert(fpre.skip(1) =~= od.fields@.skip(i + 1));
            assert(vpre.skip(1) =~= fsv.skip(i + 1));
        }
        let f = &od.fields[i];
        let w = field_wire_name(f, od.rename_policy);
        let ev = encode_value(&f.type_descriptor, &record.fields[i].value);
        let ghost old_out = out@;
        let ghost entry = SpecEntry { key: w@, value: ev@ };
        out.push(MapEntry { key: w, value: ev });
        proof {
            assert(out@.drop_last() =~= old_out);
            assert(view_entries(out@) =~= view_entries(old_out) + seq![entry]);
            assert(view_entries(old_out) + (seq![entry] + spec_encode_fields(
                od.fields@.skip(i + 1),
                od.rename_policy,
                fsv.skip(i + 1),
            )) =~= view_entries(out@) + spec_encode_fields(
                od.fields@.skip(i + 1),
                od.rename_policy,
                fsv.skip(i + 1),
            ));
        }
        i = i + 1;
    }
    proof {
        if od.fields@.len() < fsv.len() {
            assert(od.fields@.skip(n as int) =~= Seq::<FieldDescriptor>::empty());
        } else {
            assert(fsv.skip(n as int) =~= Seq::<SpecField>::empty());
        }
        assert(view_entries(out@) + Seq::<SpecEntry>::empty() =~= view_entries(out@));
    }
    InputValue::Mapping(out)
}

/// A decoded value conforms to its type descriptor; a value decoded from
/// non-null input is never the absence value.
pub proof fn lemma_decode_value_fits(td: TypeDescriptor, v: SpecValue)
    requires
        td_wf(td),
    ensures
        spec_decode_value(td, v) matches Result::Ok(d) ==> {
            &&& value_fits(d, td)
            &&& !(v is Null) ==> !(d is Absent)
        },
    decreases td, 0int,
{
    match td {
        TypeDescriptor::Optional(t) => {
            if !(v is Null) {
                lemma_decode_value_fits(*t, v);
            }
        },
        TypeDescriptor::FixedArray(t, n) => {
            if let SpecValue::Sequence(vs) = v {
                if vs.len() == n as int {
                    lemma_decode_elems_fit(*t, vs, 0);
                }
            }
        },
        TypeDescriptor::Object(od) => {
            if let SpecValue::Mapping(es) = v {
                assert(crate::descriptor::od_wf(*od));
                lemma_decode_fields_fit(od.fields@, od.rename_policy, es);
            }
        },
        _ => {},
    }
}

/// Decoded sequence elements conform elementwise, and their number is the
/// number of inputs.
pub proof fn lemma_decode_elems_fit(t: TypeDescriptor, vs: Seq<SpecValue>, k: int)
    requires
        td_wf(t),
    ensures
        spec_decode_elems(t, vs, k) matches Result::Ok(ds) ==> {
            &&& ds.len() == vs.len()
            &&& forall|i: int| 0 <= i < ds.len() ==> value_fits(#[trigger] ds[i], t)
        },
    decreases t, vs.len() + 1,
{
    if vs.len() > 0 {
        lemma_decode_value_fits(t, vs[0]);
        lemma_decode_elems_fit(t, vs.skip(1), k + 1);
        if let Result::Ok(ds) = spec_decode_elems(t, vs, k) {
            if let Result::Ok(d0) = spec_decode_value(t, vs[0]) {
                if let Result::Ok(rest) = spec_decode_elems(t, vs.skip(1), k + 1) {
                    assert forall|i: int| 0 <= i < ds.len() implies value_fits(
                        #[trigger] ds[i],
                        t,
                    ) by {
                        if i == 0 {
                            assert(ds[0] == d0);
                        } else {
                            assert(ds[i] == rest[i - 1]);
                        }
                    }
                }
            }
        }
    }
}

/// A value decoded for one field conforms to the field's type, and is the
/// absence value only where the field's default reproduces it.
pub proof fn lemma_decode_field_fits(f: FieldDescriptor, policy: RenamePolicy, es: Seq<SpecEntry>)
    requires
        field_wf(f),
    ensures
        spec_decode_field(f, policy, es) matches Result::Ok(d) ==> {
            &&& value_fits(d, f.type_descriptor)
            &&& (d is Absent ==> absent_default(f))
        },
    decreases f, 1int,
{
    let w = spec_wire_name(f, policy);
    match spec_lookup(es, w) {
        Option::None => {},
        Option::Some(v) => {
            if !(v is Null) {
                lemma_decode_value_fits(f.type_descriptor, v);
            }
        },
    }
}

/// Decoded record fields conform to their declarations.
pub proof fn lemma_decode_fields_fit(
    fields: Seq<FieldDescriptor>,
    policy: RenamePolicy,
    es: Seq<SpecEntry>,
)
    requires
        forall|i: int| 0 <= i < fields.len() ==> field_wf(#[trigger] fields[i]),
    ensures
        spec_decode_fields(fields, policy, es) matches Result::Ok(fs) ==> record_fits(fs, fields),
    decreases fields, 2int,
{
    if fields.len() > 0 {
        lemma_decode_field_fits(fields[0], policy, es);
        assert forall|i: int| 0 <= i < fields.skip(1).len() implies field_wf(
            #[trigger] fields.skip(1)[i],
        ) by {
            assert(fields.skip(1)[i] == fields[i + 1]);
        }
        lemma_decode_fields_fit(fields.skip(1), policy, es);
        if let Result::Ok(fs) = spec_decode_fields(fields, policy, es) {
            if let Result::Ok(d0) = spec_decode_field(fields[0], policy, es) {
                if let Result::Ok(rest) = spec_decode_fields(fields.skip(1), policy, es) {
                    assert forall|i: int| 0 <= i < fields.len() implies {
                        &&& (#[trigger] fs[i]).name == (#[trigger] fields[i]).source_name@
                        &&& value_fits(fs[i].value, fields[i].type_descriptor)
                        &&& (fs[i].value is Absent ==> absent_default(fields[i]))
                    } by {
                        if i == 0 {
                            assert(fs[0] == SpecField {
                                name: fields[0].source_name@,
                                value: d0,
                            });
                        } else {
                            assert(fs[i] == rest[i - 1]);
                            assert(fields.skip(1)[i - 1] == fields[i]);
                        }
                    }
                }
            }
        }
    }
}

/// A conforming value that is not the absence value never encodes to null.
pub proof fn lemma_encode_nonnull(td: TypeDescriptor, d: SpecDecoded)
    requires
        value_fits(d, td),
        !(d is Absent),
    ensures
        !(spec_encode_value(td, d) is Null),
    decreases td, 0int,
{
    if let TypeDescriptor::Optional(t) = td {
        if let SpecDecoded::Present(x) = d {
            lemma_encode_nonnull(*t, *x);
        }
    }
}

/// Shifting the start index of a lookup by one is a lookup in the tail.
proof fn lemma_lookup_shift(es: Seq<SpecEntry>, k: Seq<char>, i: int)
    requires
        1 <= i,
        1 <= es.len(),
    ensures
        lookup_from(es, k, i) == lookup_from(es.skip(1), k, i - 1),
    decreases es.len() - i,
{
    if i < es.len() {
        assert(es.skip(1)[i - 1] == es[i]);
        lemma_lookup_shift(es, k, i + 1);
    }
}

/// In the encoding of a record with pairwise-distinct wire names, looking a
/// field's wire name up finds exactly that field's encoded value.
proof fn lemma_lookup_encoded(
    fields: Seq<FieldDescriptor>,
    policy: RenamePolicy,
    fs: Seq<SpecField>,
    j: int,
)
    requires
        fs.len() == fields.len(),
        0 <= j < fields.len(),
        distinct_wires_seq(fields, policy),
    ensures
        spec_lookup(spec_encode_fields(fields, policy, fs), spec_wire_name(fields[j], policy))
            == Option::Some(spec_encode_value(fields[j].type_descriptor, fs[j].value)),
    decreases j,
{
    let es = spec_encode_fields(fields, policy, fs);
    let e0 = SpecEntry {
        key: spec_wire_name(fields[0], policy),
        value: spec_encode_value(fields[0].type_descriptor, fs[0].value),
    };
    let rest = spec_encode_fields(fields.skip(1), policy, fs.skip(1));
    assert(es == seq![e0] + rest);
    assert(es[0] == e0);
    if j == 0 {
    } else {
        assert(spec_wire_name(fields[j], policy) != spec_wire_name(fields[0], policy));
        assert(es.len() == 1 + rest.len());
        lemma_lookup_shift(es, spec_wire_name(fields[j], policy), 1);
        assert(es.skip(1) =~= rest);
        assert forall|a: int, b: int|
            0 <= a < b < fields.skip(1).len() implies spec_wire_name(
            #[trigger] fields.skip(1)[a],
            policy,
        ) != spec_wire_name(#[trigger] fields.skip(1)[b], policy) by {
            assert(fields.skip(1)[a] == fields[a + 1]);
            assert(fields.skip(1)[b] == fields[b + 1]);
        }
        lemma_lookup_encoded(fields.skip(1), policy, fs.skip(1), j - 1);
        assert(fields.skip(1)[j - 1] == fields[j]);
        assert(fs.skip(1)[j - 1] == fs[j]);
    }
}

/// Round trip at the value level: a conforming value decodes back from its
/// own encoding.
pub proof fn lemma_round_trip_value(td: TypeDescriptor, d: SpecDecoded)
    requires
        td_wf(td),
        value_fits(d, td),
    ensures
        spec_decode_value(td, spec_encode_value(td, d)) == Result::<SpecDecoded, SpecErr>::Ok(d),
    decreases td, 0int,
{
    match td {
        TypeDescriptor::Optional(t) => {
            match d {
                SpecDecoded::Absent => {},
                SpecDecoded::Present(x) => {
                    lemma_encode_nonnull(*t, *x);
                    lemma_round_trip_value(*t, *x);
                },
                _ => {},
            }
        },
        TypeDescriptor::FixedArray(t, n) => {
            if let SpecDecoded::Sequence(ds) = d {
                lemma_round_trip_elems(*t, ds, 0);
            }
        },
        TypeDescriptor::Object(od) => {
            if let SpecDecoded::Record(fs) = d {
                assert(crate::descriptor::od_wf(*od));
                lemma_round_trip_fields(od.fields@, od.rename_policy, fs, 0);
                assert(fs.skip(0) =~= fs);
                assert(od.fields@.skip(0) =~= od.fields@);
            }
        },
        _ => {},
    }
}

/// Round trip for sequence elements.
proof fn lemma_round_trip_elems(t: TypeDescriptor, ds: Seq<SpecDecoded>, k: int)
    requires
        td_wf(t),
        forall|i: int| 0 <= i < ds.len() ==> value_fits(#[trigger] ds[i], t),
    ensures
        spec_encode_elems(t, ds).len() == ds.len(),
        spec_decode_elems(t, spec_encode_elems(t, ds), k) == Result::<
            Seq<SpecDecoded>,
            SpecErr,
        >::Ok(ds),
    decreases t, ds.len() + 1,
{
    if ds.len() == 0 {
        assert(spec_encode_elems(t, ds) =~= Seq::<SpecValue>::empty());
        assert(ds =~= Seq::<SpecDecoded>::empty());
    } else {
        let enc = spec_encode_elems(t, ds);
        let e0 = spec_encode_value(t, ds[0]);
        let rest = spec_encode_elems(t, ds.skip(1));
        assert(enc == seq![e0] + rest);
        assert(enc[0] == e0);
        assert(enc.skip(1) =~= rest);
        lemma_round_trip_value(t, ds[0]);
        assert forall|i: int| 0 <= i < ds.skip(1).len() implies value_fits(
            #[trigger] ds.skip(1)[i],
            t,
        ) by {
            assert(ds.skip(1)[i] == ds[i + 1]);
        }
        lemma_round_trip_elems(t, ds.skip(1), k + 1);
        assert(enc.len() == 1 + rest.len());
        assert(spec_decode_value(t, enc[0]) == Result::<SpecDecoded, SpecErr>::Ok(ds[0]));
        assert(spec_decode_elems(t, enc.skip(1), k + 1) == Result::<Seq<SpecDecoded>, SpecErr>::Ok(
            ds.skip(1),
        ));
        assert(seq![ds[0]] + ds.skip(1) =~= ds);
        assert(spec_decode_elems(t, enc, k) == Result::<Seq<SpecDecoded>, SpecErr>::Ok(ds));
    }
}

/// Round trip for the fields of a record, from field `j` on: decoding the
/// full encoding reproduces the record's tail.
proof fn lemma_round_trip_fields(
    fields: Seq<FieldDescriptor>,
    policy: RenamePolicy,
    fs: Seq<SpecField>,
    j: int,
)
    requires
        0 <= j <= fields.len(),
        distinct_wires_seq(fields, policy),
        forall|i: int| 0 <= i < fields.len() ==> field_wf(#[trigger] fields[i]),
        record_fits(fs, fields),
    ensures
        spec_decode_fields(
            fields.skip(j),
            policy,
            spec_encode_fields(fields, policy, fs),
        ) == Result::<Seq<SpecField>, SpecErr>::Ok(fs.skip(j)),
    decreases fields, fields.len() - j,
{
    let es = spec_encode_fields(fields, policy, fs);
    if j == fields.len() {
        assert(fields.skip(j) =~= Seq::<FieldDescriptor>::empty());
        assert(fs.skip(j) =~= Seq::<SpecField>::empty());
    } else {
        let f = fields[j];
        let w = spec_wire_name(f, policy);
        assert(fields.skip(j)[0] == f);
        lemma_lookup_encoded(fields, policy, fs, j);
        let ev = spec_encode_value(f.type_descriptor, fs[j].value);
        if fs[j].value is Absent {
            assert(ev is Null);
            assert(absent_default(f));
            assert(spec_decode_field(f, policy, es) == Result::<SpecDecoded, SpecErr>::Ok(
                fs[j].value,
            ));
        } else {
            lemma_encode_nonnull(f.type_descriptor, fs[j].value);
            lemma_round_trip_value(f.type_descriptor, fs[j].value);
            assert(spec_decode_field(f, policy, es) == Result::<SpecDecoded, SpecErr>::Ok(
                fs[j].value,
            ));
        }
        lemma_round_trip_fields(fields, policy, fs, j + 1);
        assert(fields.skip(j).skip(1) =~= fields.skip(j + 1));
        assert(seq![SpecField { name: f.source_name@, value: fs[j].value }] + fs.skip(j + 1)
            =~= fs.skip(j));
    }
}

/// Law (idempotence): a record decoded from some input, encoded against its
/// descriptor and decoded again, is reproduced exactly.
pub proof fn lemma_decode_encode_decode(od: ObjectDescriptor, v: SpecValue)
    requires
        od_wf(od),
        spec_decode_input(od, v) is Ok,
    ensures
        spec_decode_input(
            od,
            SpecValue::Mapping(
                spec_encode_fields(
                    od.fields@,
                    od.rename_policy,
                    spec_decode_input(od, v)->Ok_0,
                ),
            ),
        ) == spec_decode_input(od, v),
{
    if let SpecValue::Mapping(es) = v {
        let fs = spec_decode_input(od, v)->Ok_0;
        lemma_decode_fields_fit(od.fields@, od.rename_policy, es);
        lemma_round_trip_fields(od.fields@, od.rename_policy, fs, 0);
        assert(od.fields@.skip(0) =~= od.fields@);
        assert(fs.skip(0) =~= fs);
    }
}

} // verus!
