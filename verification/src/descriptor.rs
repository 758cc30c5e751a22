//! Build-time descriptors: the immutable declaration of a record's fields,
//! their types, defaults and documentation, together with the well-formedness
//! invariant that every registered descriptor satisfies — above all that
//! sibling fields resolve to pairwise-distinct wire names.

use vstd::prelude::*;

use crate::rename::{resolve_name, resolve_wire_name, RenamePolicy};
use crate::value::{view_decoded, DecodedRecord, DecodedValue, SpecDecoded, SpecField};

verus! {

/// The type of a field: a scalar leaf, an optional wrapper, a fixed-length
/// sequence, a nested record, or an opaque encode-only type that no input
/// can decode into.
#[derive(Debug, PartialEq)]
pub enum TypeDescriptor {
    Int,
    Boolean,
    Str,
    Optional(Box<TypeDescriptor>),
    FixedArray(Box<TypeDescriptor>, usize),
    Object(Box<ObjectDescriptor>),
    /// An encode-only type, possibly anonymous. Decoding a field of this
    /// type is a defined, always-failing operation.
    Opaque(Option<String>),
}

/// What a field falls back to when its wire name is absent or null.
#[derive(Debug, PartialEq)]
pub enum DefaultValue {
    /// No fallback: such a field is required.
    NoDefault,
    /// A literal value, parsed once at schema-build time.
    Literal(DecodedValue),
    /// The type's own empty state (the absence value of an optional type).
    TypeAbsence,
}

/// The static description of one field.
#[derive(Debug, PartialEq)]
pub struct FieldDescriptor {
    pub source_name: String,
    pub rename_override: Option<String>,
    pub type_descriptor: TypeDescriptor,
    pub default: DefaultValue,
    pub doc_lines: Vec<String>,
    pub description_override: Option<String>,
}

/// The static description of one record type: its name, documentation,
/// rename policy and ordered fields.
#[derive(Debug, PartialEq)]
pub struct ObjectDescriptor {
    pub name: String,
    pub name_override: Option<String>,
    pub rename_policy: RenamePolicy,
    pub doc_lines: Vec<String>,
    pub description_override: Option<String>,
    pub fields: Vec<FieldDescriptor>,
}

/// The view of an optional owned string.
pub open spec fn view_opt_string(o: Option<String>) -> Option<Seq<char>> {
    match o {
        Option::Some(s) => Option::Some(s@),
        Option::None => Option::None,
    }
}

/// The wire name a field resolves to under an object's rename policy.
pub open spec fn spec_wire_name(f: FieldDescriptor, policy: RenamePolicy) -> Seq<char> {
    resolve_name(f.source_name@, policy, view_opt_string(f.rename_override))
}

/// The externally visible name of an object: its name directive if present,
/// else its declared name.
pub open spec fn spec_object_name(od: ObjectDescriptor) -> Seq<char> {
    match od.name_override {
        Option::Some(o) => o@,
        Option::None => od.name@,
    }
}

/// Resolves the wire name of one field of an object.
pub fn field_wire_name(f: &FieldDescriptor, policy: RenamePolicy) -> (r: String)
    ensures
        r@ == spec_wire_name(*f, policy),
{
    match &f.rename_override {
        Option::Some(o) => resolve_wire_name(f.source_name.as_str(), policy, Option::Some(o.as_str())),
        Option::None => resolve_wire_name(f.source_name.as_str(), policy, Option::None),
    }
}

/// Resolves the externally visible name of an object.
pub fn object_name(od: &ObjectDescriptor) -> (r: String)
    ensures
        r@ == spec_object_name(*od),
{
    match &od.name_override {
        Option::Some(o) => o.clone(),
        Option::None => od.name.clone(),
    }
}

/// Whether a default reproduces the absence value when it is applied: either
/// it is the type's own empty state, or a literal that is that state.
pub open spec fn absent_default(f: FieldDescriptor) -> bool {
    match f.default {
        DefaultValue::TypeAbsence => true,
        DefaultValue::Literal(v) => view_decoded(v) is Absent,
        DefaultValue::NoDefault => false,
    }
}

/// Whether a decoded value conforms to a type descriptor; such values are
/// exactly the ones decoding can produce for the type. An optional type
/// holds either its absence value or a present non-absence value; a
/// fixed-length sequence holds exactly its declared number of conforming
/// elements; nothing conforms to an opaque type.
pub open spec fn value_fits(d: SpecDecoded, td: TypeDescriptor) -> bool
    decreases td,
{
    match td {
        TypeDescriptor::Int => d is Int,
        TypeDescriptor::Boolean => d is Boolean,
        TypeDescriptor::Str => d is Str,
        TypeDescriptor::Opaque(_) => false,
        TypeDescriptor::Optional(t) => match d {
            SpecDecoded::Absent => true,
            SpecDecoded::Present(x) => value_fits(*x, *t) && !(*x is Absent),
            _ => false,
        },
        TypeDescriptor::FixedArray(t, n) => match d {
            SpecDecoded::Sequence(ds) => ds.len() == n as int && (forall|i: int|
                0 <= i < ds.len() ==> value_fits(#[trigger] ds[i], *t)),
            _ => false,
        },
        TypeDescriptor::Object(od) => match d {
            SpecDecoded::Record(fs) => record_fits(fs, od.fields@),
            _ => false,
        },
    }
}

/// Whether record fields conform to a field list: one value per declared
/// field, under its identifier, conforming to its type; a field holding the
/// absence value must owe it to its default, as decoding leaves it only that
/// way.
pub open spec fn record_fits(fs: Seq<SpecField>, fields: Seq<FieldDescriptor>) -> bool
    decreases fields,
{
    &&& fs.len() == fields.len()
    &&& forall|i: int|
        0 <= i < fields.len() ==> {
            &&& (#[trigger] fs[i]).name == (#[trigger] fields[i]).source_name@
            &&& value_fits(fs[i].value, fields[i].type_descriptor)
            &&& (fs[i].value is Absent ==> absent_default(fields[i]))
        }
}

/// Pairwise-distinct wire names within a field list, under one policy.
pub open spec fn distinct_wires_seq(fields: Seq<FieldDescriptor>, policy: RenamePolicy) -> bool {
    forall|i: int, j: int|
        0 <= i < j < fields.len() ==> spec_wire_name(#[trigger] fields[i], policy)
            != spec_wire_name(#[trigger] fields[j], policy)
}

/// Pairwise-distinct wire names among an object's fields.
pub open spec fn distinct_wire_names(od: ObjectDescriptor) -> bool {
    distinct_wires_seq(od.fields@, od.rename_policy)
}

/// Well-formedness of a type descriptor: every object descriptor nested in
/// it is well-formed.
pub open spec fn td_wf(td: TypeDescriptor) -> bool
    decreases td,
{
    match td {
        TypeDescriptor::Int => true,
        TypeDescriptor::Boolean => true,
        TypeDescriptor::Str => true,
        TypeDescriptor::Opaque(_) => true,
        TypeDescriptor::Optional(t) => td_wf(*t),
        TypeDescriptor::FixedArray(t, _) => td_wf(*t),
        TypeDescriptor::Object(od) => od_wf(*od),
    }
}

/// Well-formedness of one field: its type is well-formed, a literal default
/// conforms to the type, and a type-intrinsic default is only declared for a
/// type that has an empty state.
pub open spec fn field_wf(f: FieldDescriptor) -> bool
    decreases f,
{
    &&& td_wf(f.type_descriptor)
    &&& match f.default {
        DefaultValue::NoDefault => true,
        DefaultValue::Literal(v) => value_fits(view_decoded(v), f.type_descriptor),
        DefaultValue::TypeAbsence => f.type_descriptor is Optional,
    }
}

/// Well-formedness of an object descriptor: distinct wire names and
/// well-formed fields, transitively. Schema construction must not register
/// a descriptor that breaks this.
pub open spec fn od_wf(od: ObjectDescriptor) -> bool
    decreases od,
{
    &&& distinct_wire_names(od)
    &&& forall|i: int| 0 <= i < od.fields@.len() ==> field_wf(#[trigger] od.fields@[i])
}

/// Decides whether a decoded value conforms to a type descriptor.
#[verifier::loop_isolation(false)]
pub fn check_value_fits(d: &DecodedValue, td: &TypeDescriptor) -> (r: bool)
    ensures
        r == value_fits(d@, *td),
    decreases *td,
{
    match td {
        TypeDescriptor::Int => matches!(d, DecodedValue::Int(_)),
        TypeDescriptor::Boolean => matches!(d, DecodedValue::Boolean(_)),
        TypeDescriptor::Str => matches!(d, DecodedValue::Str(_)),
        TypeDescriptor::Opaque(_) => false,
        TypeDescriptor::Optional(t) => match d {
            DecodedValue::Absent => true,
            DecodedValue::Present(x) => {
                let inner_ok = check_value_fits(x, t);
                inner_ok && !matches!(&**x, DecodedValue::Absent)
            },
            _ => false,
        },
        TypeDescriptor::FixedArray(t, n) => match d {
            DecodedValue::Sequence(ds) => {
                proof {
                    crate::value::lemma_view_decoded_seq_len(ds@);
                }
                if ds.len() != *n {
                    false
                } else {
                    let mut i: usize = 0;
                    let mut ok = true;
                    while ok && i < ds.len()
                        invariant
                            0 <= i <= ds@.len(),
                            ok ==> forall|k: int|
                                0 <= k < i ==> value_fits(
                                    #[trigger] crate::value::view_decoded_seq(ds@)[k],
                                    **t,
                                ),
                            !ok ==> !value_fits(d@, *td),
                        decreases ds@.len() - i,
                    {
                        if !check_value_fits(&ds[i], t) {
                            proof {
                                assert(crate::value::view_decoded_seq(ds@)[i as int]
                                    == view_decoded(ds@[i as int]));
                            }
                            ok = false;
                        }
                        i = i + 1;
                    }
                    ok
                }
            },
            _ => false,
        },
        TypeDescriptor::Object(od) => match d {
            DecodedValue::Record(rec) => check_record_fits(rec, &od.fields),
            _ => false,
        },
    }
}

/// Decides whether record fields conform to a field list.
#[verifier::loop_isolation(false)]
pub fn check_record_fits(rec: &DecodedRecord, fields: &Vec<FieldDescriptor>) -> (r: bool)
    ensures
        r == record_fits(rec@, fields@),
    decreases fields@,
{
    proof {
        crate::value::lemma_view_record_fields_len(rec.fields@);
    }
    if rec.fields.len() != fields.len() {
        return false;
    }
    let ghost fsv = crate::value::view_record_fields(rec.fields@);
    let mut i: usize = 0;
    while i < fields.len()
        invariant
            0 <= i <= fields@.len(),
            rec.fields@.len() == fields@.len(),
            fsv == rec@,
            fsv.len() == fields@.len(),
            forall|k: int|
                0 <= k < fields@.len() ==> fsv[k] == (SpecField {
                    name: rec.fields@[k].name@,
                    value: view_decoded(rec.fields@[k].value),
                }),
            forall|k: int|
                0 <= k < i ==> {
                    &&& (#[trigger] fsv[k]).name == fields@[k].source_name@
                    &&& value_fits(fsv[k].value, fields@[k].type_descriptor)
                    &&& (fsv[k].value is Absent ==> absent_default(fields@[k]))
                },
        decreases fields@.len() - i,
    {
        let rf = &rec.fields[i];
        let fd = &fields[i];
        let rf_name_ok = rf.name == fd.source_name;
        proof {
            assert(fsv[i as int] == SpecField {
                name: rec.fields@[i as int].name@,
                value: view_decoded(rec.fields@[i as int].value),
            });
        }
        if !rf_name_ok {
            proof {
                assert(fsv[i as int].name != fields@[i as int].source_name@);
            }
            return false;
        }
        if !check_value_fits(&rf.value, &fd.type_descriptor) {
            proof {
                assert(!value_fits(fsv[i as int].value, fields@[i as int].type_descriptor));
            }
            return false;
        }
        if matches!(rf.value, DecodedValue::Absent) {
            let abs_ok = match &fd.default {
                DefaultValue::TypeAbsence => true,
                DefaultValue::Literal(v) => matches!(v, DecodedValue::Absent),
                DefaultValue::NoDefault => false,
            };
            if !abs_ok {
                proof {
                    assert(fsv[i as int].value is Absent && !absent_default(
                        fields@[i as int],
                    ));
                }
                return false;
            }
        }
        i = i + 1;
    }
    true
}

/// Resolves every field's wire name, in declaration order.
pub fn wire_names(od: &ObjectDescriptor) -> (r: Vec<String>)
    ensures
        r@.len() == od.fields@.len(),
        forall|i: int|
            0 <= i < od.fields@.len() ==> (#[trigger] r@[i])@ == spec_wire_name(
                od.fields@[i],
                od.rename_policy,
            ),
{
    let mut out: Vec<String> = Vec::new();
    let mut i: usize = 0;
    while i < od.fields.len()
        invariant
            0 <= i <= od.fields@.len(),
            out@.len() == i,
            forall|k: int|
                0 <= k < i ==> (#[trigger] out@[k])@ == spec_wire_name(
                    od.fields@[k],
                    od.rename_policy,
                ),
        decreases od.fields@.len() - i,
    {
        let w = field_wire_name(&od.fields[i], od.rename_policy);
        out.push(w);
        i = i + 1;
    }
    out
}

/// Decides whether a type descriptor is well-formed.
pub fn check_type(td: &TypeDescriptor) -> (r: bool)
    ensures
        r == td_wf(*td),
    decreases *td,
{
    match td {
        TypeDescriptor::Int => true,
        TypeDescriptor::Boolean => true,
        TypeDescriptor::Str => true,
        TypeDescriptor::Opaque(_) => true,
        TypeDescriptor::Optional(t) => check_type(t),
        TypeDescriptor::FixedArray(t, _) => check_type(t),
        TypeDescriptor::Object(od) => check_object(od),
    }
}

/// Decides whether one field is well-formed.
pub fn check_field(f: &FieldDescriptor) -> (r: bool)
    ensures
        r == field_wf(*f),
    decreases *f,
{
    if !check_type(&f.type_descriptor) {
        return false;
    }
    match &f.default {
        DefaultValue::NoDefault => true,
        DefaultValue::Literal(v) => check_value_fits(v, &f.type_descriptor),
        DefaultValue::TypeAbsence => matches!(f.type_descriptor, TypeDescriptor::Optional(_)),
    }
}

/// Decides whether an object descriptor is well-formed: wire names pairwise
/// distinct and every field well-formed, transitively. Schema construction
/// refuses a descriptor for which this is false.
pub fn check_object(od: &ObjectDescriptor) -> (r: bool)
    ensures
        r == od_wf(*od),
    decreases *od,
{
    let names = wire_names(od);
    let n = names.len();
    let mut i: usize = 0;
    while i < n
        invariant
            0 <= i <= n,
            n == names@.len(),
            n == od.fields@.len(),
            forall|k: int|
                0 <= k < n ==> (#[trigger] names@[k])@ == spec_wire_name(
                    od.fields@[k],
                    od.rename_policy,
                ),
            forall|a: int, b: int|
                0 <= a < b < n && a < i ==> spec_wire_name(
                    #[trigger] od.fields@[a],
                    od.rename_policy,
                ) != spec_wire_name(#[trigger] od.fields@[b], od.rename_policy),
        decreases n - i,
    {
        let mut j: usize = i + 1;
        while j < n
            invariant
                0 <= i < j <= n,
                n == names@.len(),
                n == od.fields@.len(),
                forall|k: int|
                    0 <= k < n ==> (#[trigger] names@[k])@ == spec_wire_name(
                        od.fields@[k],
                        od.rename_policy,
                    ),
                forall|b: int|
                    i < b < j ==> spec_wire_name(od.fields@[i as int], od.rename_policy)
                        != spec_wire_name(#[trigger] od.fields@[b], od.rename_policy),
            decreases n - j,
        {
            if names[i] == names[j] {
                return false;
            }
            j = j + 1;
        }
        i = i + 1;
    }
    assert(distinct_wire_names(*od));
    let mut i: usize = 0;
    while i < od.fields.len()
        invariant
            0 <= i <= od.fields@.len(),
            distinct_wire_names(*od),
            forall|k: int| 0 <= k < i ==> field_wf(#[trigger] od.fields@[k]),
        decreases od.fields@.len() - i,
    {
        if !check_field(&od.fields[i]) {
            return false;
        }
        i = i + 1;
    }
    true
}

/// Law: within one well-formed object descriptor, any two distinct sibling
/// fields resolve to distinct wire names.
pub proof fn lemma_distinct_wire_names(od: ObjectDescriptor, i: int, j: int)
    requires
        od_wf(od),
        0 <= i < od.fields@.len(),
        0 <= j < od.fields@.len(),
        i != j,
    ensures
        spec_wire_name(od.fields@[i], od.rename_policy) != spec_wire_name(
            od.fields@[j],
            od.rename_policy,
        ),
{
}

} // verus!
