//! The metadata builder and the schema registry: turns descriptors into
//! immutable, introspectable metadata, registered once per distinct type
//! name.
//!
//! Building happens once, at schema-build time; the registry is read-only
//! thereafter. Registering a name twice with the same shape is a no-op;
//! registering it with a different shape is a configuration error, fatal to
//! schema construction.

use vstd::prelude::*;

use crate::descriptor::{
    check_object, field_wire_name, object_name, od_wf, spec_object_name, spec_wire_name,
    view_opt_string, DefaultValue, FieldDescriptor, ObjectDescriptor, TypeDescriptor,
};
use crate::docs::{aggregate, aggregate_spec, view_lines};
use crate::render::{render_decoded, spec_render};
use crate::rename::RenamePolicy;
use crate::value::view_decoded;

verus! {

/// Introspectable metadata of one field.
#[derive(Debug, Clone, PartialEq)]
pub struct FieldMeta {
    pub wire_name: String,
    pub description: Option<String>,
    pub default_display: Option<String>,
    pub type_label: String,
}

/// Introspectable metadata of one type, as handed to the registry.
#[derive(Debug, Clone, PartialEq)]
pub struct MetaType {
    pub name: String,
    pub description: Option<String>,
    pub fields: Vec<FieldMeta>,
}

/// Model of a [`FieldMeta`].
pub struct SpecFieldMeta {
    pub wire_name: Seq<char>,
    pub description: Option<Seq<char>>,
    pub default_display: Option<Seq<char>>,
    pub type_label: Seq<char>,
}

/// Model of a [`MetaType`].
pub struct SpecMetaType {
    pub name: Seq<char>,
    pub description: Option<Seq<char>>,
    pub fields: Seq<SpecFieldMeta>,
}

impl View for FieldMeta {
    type V = SpecFieldMeta;

    open spec fn view(&self) -> SpecFieldMeta {
        SpecFieldMeta {
            wire_name: self.wire_name@,
            description: view_opt_string(self.description),
            default_display: view_opt_string(self.default_display),
            type_label: self.type_label@,
        }
    }
}

impl View for MetaType {
    type V = SpecMetaType;

    open spec fn view(&self) -> SpecMetaType {
        SpecMetaType {
            name: self.name@,
            description: view_opt_string(self.description),
            fields: self.fields@.map_values(|m: FieldMeta| m@),
        }
    }
}

/// The introspectable name of a type: scalar leaves by their conventional
/// names, an optional by its inner type, a fixed-length sequence bracketed,
/// a nested object by its resolved name, an opaque type by its own name or
/// nothing.
pub open spec fn spec_type_label(td: TypeDescriptor) -> Seq<char>
    decreases td,
{
    match td {
        TypeDescriptor::Int => ("Int")@,
        TypeDescriptor::Boolean => ("Boolean")@,
        TypeDescriptor::Str => ("String")@,
        TypeDescriptor::Optional(t) => spec_type_label(*t),
        TypeDescriptor::FixedArray(t, _) => ("[")@ + spec_type_label(*t) + ("]")@,
        TypeDescriptor::Object(od) => spec_object_name(*od),
        TypeDescriptor::Opaque(n) => match n {
            Option::Some(s) => s@,
            Option::None => Seq::empty(),
        },
    }
}

/// Resolves the introspectable name of a type descriptor.
pub fn type_label(td: &TypeDescriptor) -> (r: String)
    ensures
        r@ == spec_type_label(*td),
    decreases *td,
{
    match td {
        TypeDescriptor::Int => String::from_str("Int"),
        TypeDescriptor::Boolean => String::from_str("Boolean"),
        TypeDescriptor::Str => String::from_str("String"),
        TypeDescriptor::Optional(t) => type_label(t),
        TypeDescriptor::FixedArray(t, _) => {
            let mut out = String::from_str("[");
            let inner = type_label(t);
            out.append(inner.as_str());
            out.append("]");
            out
        },
        TypeDescriptor::Object(od) => object_name(od),
        TypeDescriptor::Opaque(n) => match n {
            Option::Some(s) => s.clone(),
            Option::None => String::new(),
        },
    }
}

/// What the metadata of one field holds: the resolved wire name, the
/// aggregated (or overridden) description, the default in displayable form,
/// and the field type's name.
pub open spec fn spec_field_meta(f: FieldDescriptor, policy: RenamePolicy) -> SpecFieldMeta {
    SpecFieldMeta {
        wire_name: spec_wire_name(f, policy),
        description: aggregate_spec(
            view_lines(f.doc_lines@),
            view_opt_string(f.description_override),
        ),
        default_display: match f.default {
            DefaultValue::Literal(v) => Option::Some(spec_render(view_decoded(v))),
            DefaultValue::TypeAbsence => Option::None,
            DefaultValue::NoDefault => Option::None,
        },
        type_label: spec_type_label(f.type_descriptor),
    }
}

/// What the metadata of one object holds.
pub open spec fn spec_meta_type(od: ObjectDescriptor) -> SpecMetaType {
    SpecMetaType {
        name: spec_object_name(od),
        description: aggregate_spec(
            view_lines(od.doc_lines@),
            view_opt_string(od.description_override),
        ),
        fields: od.fields@.map_values(|f: FieldDescriptor| spec_field_meta(f, od.rename_policy)),
    }
}

/// Builds the metadata of one field.
pub fn build_field_meta(f: &FieldDescriptor, policy: RenamePolicy) -> (m: FieldMeta)
    ensures
        m@ == spec_field_meta(*f, policy),
{
    let wire_name = field_wire_name(f, policy);
    let description = match &f.description_override {
        Option::Some(o) => aggregate(&f.doc_lines, Option::Some(o.as_str())),
        Option::None => aggregate(&f.doc_lines, Option::None),
    };
    let default_display = match &f.default {
        DefaultValue::Literal(v) => Option::Some(render_decoded(v)),
        DefaultValue::TypeAbsence => Option::None,
        DefaultValue::NoDefault => Option::None,
    };
    let tn = type_label(&f.type_descriptor);
    FieldMeta { wire_name, description, default_display, type_label: tn }
}

/// Builds the metadata of one object descriptor: the resolved name and
/// description, and one field metadata per declared field, in order.
#[verifier::loop_isolation(false)]
pub fn build_meta_type(od: &ObjectDescriptor) -> (m: MetaType)
    ensures
        m@ == spec_meta_type(*od),
{
    let name = object_name(od);
    let description = match &od.description_override {
        Option::Some(o) => aggregate(&od.doc_lines, Option::Some(o.as_str())),
        Option::None => aggregate(&od.doc_lines, Option::None),
    };
    let mut fields: Vec<FieldMeta> = Vec::new();
    let mut i: usize = 0;
    while i < od.fields.len()
        invariant
            0 <= i <= od.fields@.len(),
            fields@.len() == i,
            forall|k: int|
                0 <= k < i ==> (#[trigger] fields@[k])@ == spec_field_meta(
                    od.fields@[k],
                    od.rename_policy,
                ),
        decreases od.fields@.len() - i,
    {
        let fm = build_field_meta(&od.fields[i], od.rename_policy);
        fields.push(fm);
        i = i + 1;
    }
    let m = MetaType { name, description, fields };
    proof {
        assert(m@.fields =~= spec_meta_type(*od).fields);
    }
    m
}

/// A configuration error of schema construction, fatal at startup and
/// distinct from per-request decode errors.
#[derive(Debug, PartialEq)]
pub enum SchemaError {
    /// The descriptor breaks its own invariant (duplicate wire names, a
    /// default that does not conform, a misplaced directive).
    InvalidDescriptor,
    /// A type of this name is already registered with a different shape.
    ConflictingType { name: String },
}

/// Model of a [`SchemaError`].
pub enum SpecSchemaErr {
    InvalidDescriptor,
    ConflictingType { name: Seq<char> },
}

impl View for SchemaError {
    type V = SpecSchemaErr;

    open spec fn view(&self) -> SpecSchemaErr {
        match self {
            SchemaError::InvalidDescriptor => SpecSchemaErr::InvalidDescriptor,
            SchemaError::ConflictingType { name } => SpecSchemaErr::ConflictingType {
                name: name@,
            },
        }
    }
}

/// First-match search of registered metadata by name, from index `i` on.
pub open spec fn find_from(ts: Seq<SpecMetaType>, name: Seq<char>, i: int) -> Option<SpecMetaType>
    decreases ts.len() - i,
{
    if i < 0 || i >= ts.len() {
        Option::None
    } else if ts[i].name == name {
        Option::Some(ts[i])
    } else {
        find_from(ts, name, i + 1)
    }
}

/// Search of registered metadata by name.
pub open spec fn spec_find(ts: Seq<SpecMetaType>, name: Seq<char>) -> Option<SpecMetaType> {
    find_from(ts, name, 0)
}

/// The conventional metadata of a scalar leaf: a bare name.
pub open spec fn spec_scalar_meta(name: Seq<char>) -> SpecMetaType {
    SpecMetaType { name, description: Option::None, fields: Seq::empty() }
}

/// What registering one metadata entry does: a present entry of the same
/// shape is kept, a present entry of a different shape is a conflict, and an
/// absent name is appended.
pub open spec fn spec_ensure(ts: Seq<SpecMetaType>, m: SpecMetaType) -> Result<
    Seq<SpecMetaType>,
    SpecSchemaErr,
> {
    match spec_find(ts, m.name) {
        Option::Some(x) => if x == m {
            Result::Ok(ts)
        } else {
            Result::Err(SpecSchemaErr::ConflictingType { name: m.name })
        },
        Option::None => Result::Ok(ts.push(m)),
    }
}

/// What registering a field type does to the registry, transitively:
/// scalars and named opaque types contribute their conventional metadata,
/// wrappers and sequences their inner type's, objects theirs and their
/// fields' in declaration order.
pub open spec fn spec_register_type(ts: Seq<SpecMetaType>, td: TypeDescriptor) -> Result<
    Seq<SpecMetaType>,
    SpecSchemaErr,
>
    decreases td, 0int,
{
    match td {
        TypeDescriptor::Int => spec_ensure(ts, spec_scalar_meta(("Int")@)),
        TypeDescriptor::Boolean => spec_ensure(ts, spec_scalar_meta(("Boolean")@)),
        TypeDescriptor::Str => spec_ensure(ts, spec_scalar_meta(("String")@)),
        TypeDescriptor::Optional(t) => spec_register_type(ts, *t),
        TypeDescriptor::FixedArray(t, _) => spec_register_type(ts, *t),
        TypeDescriptor::Object(od) => spec_register_object(ts, *od),
        TypeDescriptor::Opaque(n) => match n {
            Option::Some(nm) => spec_ensure(ts, spec_scalar_meta(nm@)),
            Option::None => Result::Ok(ts),
        },
    }
}

/// Registration of a field list's types, in declaration order, stopping at
/// the first failure.
pub open spec fn spec_register_fields(ts: Seq<SpecMetaType>, fields: Seq<FieldDescriptor>) -> Result<
    Seq<SpecMetaType>,
    SpecSchemaErr,
>
    decreases fields, 2int,
{
    if fields.len() == 0 {
        Result::Ok(ts)
    } else {
        match spec_register_type(ts, fields[0].type_descriptor) {
            Result::Err(e) => Result::Err(e),
            Result::Ok(ts1) => spec_register_fields(ts1, fields.skip(1)),
        }
    }
}

/// What registering an object does: an ill-formed descriptor is refused;
/// otherwise its own metadata is registered, then its field types,
/// transitively.
pub open spec fn spec_register_object(ts: Seq<SpecMetaType>, od: ObjectDescriptor) -> Result<
    Seq<SpecMetaType>,
    SpecSchemaErr,
>
    decreases od, 1int,
{
    if !od_wf(od) {
        Result::Err(SpecSchemaErr::InvalidDescriptor)
    } else {
        match spec_ensure(ts, spec_meta_type(od)) {
            Result::Err(e) => Result::Err(e),
            Result::Ok(ts1) => spec_register_fields(ts1, od.fields@),
        }
    }
}

/// The process-wide, read-only store of registered metadata: built once at
/// schema-build time, never mutated while serving.
#[derive(Debug)]
pub struct Registry {
    pub types: Vec<MetaType>,
}

impl View for Registry {
    type V = Seq<SpecMetaType>;

    open spec fn view(&self) -> Seq<SpecMetaType> {
        self.types@.map_values(|t: MetaType| t@)
    }
}

/// The registry's invariant: one entry per distinct name.
pub open spec fn registry_inv(r: Registry) -> bool {
    forall|i: int, j: int|
        0 <= i < j < r@.len() ==> (#[trigger] r@[i]).name != (#[trigger] r@[j]).name
}

/// Appending an entry leaves every present name found as before; an absent
/// name finds the new entry exactly when it bears it.
proof fn lemma_find_push(ts: Seq<SpecMetaType>, t: SpecMetaType, name: Seq<char>, i: int)
    requires
        0 <= i <= ts.len(),
    ensures
        find_from(ts.push(t), name, i) == (match find_from(ts, name, i) {
            Option::Some(x) => Option::Some(x),
            Option::None => if t.name == name {
                Option::Some(t)
            } else {
                Option::<SpecMetaType>::None
            },
        }),
    decreases ts.len() - i,
{
    assert(ts.push(t).len() == ts.len() + 1);
    if i < ts.len() {
        assert(ts.push(t)[i] == ts[i]);
        lemma_find_push(ts, t, name, i + 1);
    } else {
        assert(ts.push(t)[i] == t);
    }
}

/// Compares two field metadata entries.
fn field_meta_eq(a: &FieldMeta, b: &FieldMeta) -> (r: bool)
    ensures
        r == (a@ == b@),
{
    let wire_ok = a.wire_name == b.wire_name;
    let desc_ok = opt_str_eq(&a.description, &b.description);
    let def_ok = opt_str_eq(&a.default_display, &b.default_display);
    let ty_ok = a.type_label == b.type_label;
    wire_ok && desc_ok && def_ok && ty_ok
}

/// Compares two optional strings.
fn opt_str_eq(a: &Option<String>, b: &Option<String>) -> (r: bool)
    ensures
        r == (view_opt_string(*a) == view_opt_string(*b)),
{
    match (a, b) {
        (Option::None, Option::None) => true,
        (Option::Some(x), Option::Some(y)) => *x == *y,
        _ => false,
    }
}

/// Compares two metadata entries for the same shape.
#[verifier::loop_isolation(false)]
pub fn meta_type_eq(a: &MetaType, b: &MetaType) -> (r: bool)
    ensures
        r == (a@ == b@),
{
    if !(a.name == b.name) {
        return false;
    }
    if !opt_str_eq(&a.description, &b.description) {
        return false;
    }
    if a.fields.len() != b.fields.len() {
        assert(a@.fields.len() != b@.fields.len());
        return false;
    }
    let mut i: usize = 0;
    while i < a.fields.len()
        invariant
            0 <= i <= a.fields@.len(),
            a.fields@.len() == b.fields@.len(),
            forall|k: int| 0 <= k < i ==> a@.fields[k] == b@.fields[k],
        decreases a.fields@.len() - i,
    {
        if !field_meta_eq(&a.fields[i], &b.fields[i]) {
            assert(a@.fields[i as int] != b@.fields[i as int]);
            return false;
        }
        i = i + 1;
    }
    proof {
        assert(a@.fields =~= b@.fields);
    }
    true
}

impl Registry {
    /// An empty registry, ready for schema construction.
    pub fn new() -> (r: Registry)
        ensures
            registry_inv(r),
            r@.len() == 0,
    {
        Registry { types: Vec::new() }
    }

    /// Finds the registered metadata of a name, if any.
    #[verifier::loop_isolation(false)]
    pub fn lookup(&self, name: &String) -> (r: Option<&MetaType>)
        ensures
            match r {
                Option::Some(m) => spec_find(self@, name@) == Option::Some(m@),
                Option::None => spec_find(self@, name@) is None,
            },
    {
        let mut i: usize = 0;
        while i < self.types.len()
            invariant
                0 <= i <= self.types@.len(),
                spec_find(self@, name@) == find_from(self@, name@, i as int),
            decreases self.types@.len() - i,
        {
            let t = &self.types[i];
            if t.name == *name {
                return Option::Some(t);
            }
            i = i + 1;
        }
        Option::None
    }

    /// Registers one metadata entry: a no-op when the same shape is already
    /// there under its name, an error when a different shape is.
    #[verifier::loop_isolation(false)]
    pub fn ensure_registered(&mut self, m: MetaType) -> (r: Result<(), SchemaError>)
        requires
            registry_inv(*old(self)),
        ensures
            registry_inv(*final(self)),
            forall|n: Seq<char>|
                #[trigger] find_from(old(self)@, n, 0) is Some ==> find_from(final(self)@, n, 0)
                    == find_from(old(self)@, n, 0),
            r is Ok ==> spec_find(final(self)@, m@.name) == Option::Some(m@),
            r is Err ==> *final(self) == *old(self),
            ({
                let sr = spec_ensure(old(self)@, m@);
                match r {
                    Result::Ok(_) => sr == Result::<Seq<SpecMetaType>, SpecSchemaErr>::Ok(
                        final(self)@,
                    ),
                    Result::Err(e) => sr == Result::<Seq<SpecMetaType>, SpecSchemaErr>::Err(e@),
                }
            }),
    {
        let mut i: usize = 0;
        while i < self.types.len()
            invariant
                0 <= i <= self.types@.len(),
                spec_find(self@, m@.name) == find_from(self@, m@.name, i as int),
                forall|k: int| 0 <= k < i ==> (#[trigger] self@[k]).name != m@.name,
            decreases self.types@.len() - i,
        {
            let same_name = self.types[i].name == m.name;
            if same_name {
                proof {
                    assert(self@[i as int] == self.types@[i as int]@);
                    assert(find_from(self@, m@.name, i as int) == Option::Some(
                        self@[i as int],
                    ));
                }
                if meta_type_eq(&self.types[i], &m) {
                    return Result::Ok(());
                } else {
                    return Result::Err(SchemaError::ConflictingType { name: m.name });
                }
            }
            i = i + 1;
        }
        let ghost pre = self@;
        let ghost mv = m@;
        self.types.push(m);
        proof {
            assert(self@ =~= pre.push(mv));
            lemma_find_push(pre, mv, mv.name, 0);
            assert forall|n: Seq<char>| #[trigger] find_from(pre, n, 0) is Some implies find_from(
                self@,
                n,
                0,
            ) == find_from(pre, n, 0) by {
                lemma_find_push(pre, mv, n, 0);
            }
            assert forall|a: int, b: int|
                0 <= a < b < self@.len() implies (#[trigger] self@[a]).name
                != (#[trigger] self@[b]).name by {
                if b == self@.len() - 1 {
                    assert(self@[a] == pre[a]);
                } else {
                    assert(self@[a] == pre[a]);
                    assert(self@[b] == pre[b]);
                }
            }
        }
        Result::Ok(())
    }

    /// Registers the conventional scalar metadata of a leaf type name.
    fn ensure_scalar(&mut self, name: String) -> (r: Result<(), SchemaError>)
        requires
            registry_inv(*old(self)),
        ensures
            registry_inv(*final(self)),
            forall|n: Seq<char>|
                #[trigger] find_from(old(self)@, n, 0) is Some ==> find_from(final(self)@, n, 0)
                    == find_from(old(self)@, n, 0),
            ({
                let sr = spec_ensure(old(self)@, spec_scalar_meta(name@));
                match r {
                    Result::Ok(_) => sr == Result::<Seq<SpecMetaType>, SpecSchemaErr>::Ok(
                        final(self)@,
                    ),
                    Result::Err(e) => sr == Result::<Seq<SpecMetaType>, SpecSchemaErr>::Err(e@),
                }
            }),
    {
        let ghost nv = name@;
        let m = MetaType { name, description: Option::None, fields: Vec::new() };
        proof {
            assert(m@.fields =~= spec_scalar_meta(nv).fields);
            assert(m@ == spec_scalar_meta(nv));
        }
        match self.ensure_registered(m) {
            Result::Ok(()) => Result::Ok(()),
            Result::Err(e) => Result::Err(e),
        }
    }

    /// Ensures a field type's metadata is registered, transitively: nested
    /// objects and sequence element types included.
    pub fn register_type(&mut self, td: &TypeDescriptor) -> (r: Result<(), SchemaError>)
        requires
            registry_inv(*old(self)),
        ensures
            registry_inv(*final(self)),
            forall|n: Seq<char>|
                #[trigger] find_from(old(self)@, n, 0) is Some ==> find_from(final(self)@, n, 0)
                    == find_from(old(self)@, n, 0),
            ({
                let sr = spec_register_type(old(self)@, *td);
                match r {
                    Result::Ok(_) => sr == Result::<Seq<SpecMetaType>, SpecSchemaErr>::Ok(
                        final(self)@,
                    ),
                    Result::Err(e) => sr == Result::<Seq<SpecMetaType>, SpecSchemaErr>::Err(e@),
                }
            }),
        decreases *td,
    {
        match td {
            TypeDescriptor::Int => self.ensure_scalar(String::from_str("Int")),
            TypeDescriptor::Boolean => self.ensure_scalar(String::from_str("Boolean")),
            TypeDescriptor::Str => self.ensure_scalar(String::from_str("String")),
            TypeDescriptor::Optional(t) => self.register_type(t),
            TypeDescriptor::FixedArray(t, _) => self.register_type(t),
            TypeDescriptor::Object(od) => self.register_object(od),
            TypeDescriptor::Opaque(n) => match n {
                Option::Some(s) => self.ensure_scalar(s.clone()),
                Option::None => Result::Ok(()),
            },
        }
    }

    /// Builds and registers an object's metadata, then registers every
    /// field type transitively. A descriptor that breaks its invariant is
    /// refused; a name already registered with a different shape is a
    /// conflict.
    #[verifier::loop_isolation(false)]
    pub fn register_object(&mut self, od: &ObjectDescriptor) -> (r: Result<(), SchemaError>)
        requires
            registry_inv(*old(self)),
        ensures
            registry_inv(*final(self)),
            forall|n: Seq<char>|
                #[trigger] find_from(old(self)@, n, 0) is Some ==> find_from(final(self)@, n, 0)
                    == find_from(old(self)@, n, 0),
            r is Ok ==> od_wf(*od) && spec_find(final(self)@, spec_object_name(*od))
                == Option::Some(spec_meta_type(*od)),
            !od_wf(*od) ==> r is Err,
            ({
                let sr = spec_register_object(old(self)@, *od);
                match r {
                    Result::Ok(_) => sr == Result::<Seq<SpecMetaType>, SpecSchemaErr>::Ok(
                        final(self)@,
                    ),
                    Result::Err(e) => sr == Result::<Seq<SpecMetaType>, SpecSchemaErr>::Err(e@),
                }
            }),
        decreases *od,
    {
        let ghost ts0 = self@;
        if !check_object(od) {
            return Result::Err(SchemaError::InvalidDescriptor);
        }
        let m = build_meta_type(od);
        let ghost mv = m@;
        match self.ensure_registered(m) {
            Result::Ok(()) => {},
            Result::Err(e) => {
                return Result::Err(e);
            },
        }
        let ghost ts1 = self@;
        let mut i: usize = 0;
        proof {
            assert(od.fields@.skip(0) =~= od.fields@);
            assert(spec_register_object(ts0, *od) == spec_register_fields(
                ts1,
                od.fields@.skip(0),
            ));
        }
        while i < od.fields.len()
            invariant
                0 <= i <= od.fields@.len(),
                registry_inv(*self),
                spec_find(self@, mv.name) == Option::Some(mv),
                forall|n: Seq<char>|
                    #[trigger] find_from(ts1, n, 0) is Some ==> find_from(self@, n, 0)
                        == find_from(ts1, n, 0),
                spec_register_object(ts0, *od) == spec_register_fields(
                    self@,
                    od.fields@.skip(i as int),
                ),
            decreases od.fields@.len() - i,
        {
            let ghost before = self@;
            proof {
                assert(od.fields@.skip(i as int)[0] == od.fields@[i as int]);
                assert(od.fields@.skip(i as int).skip(1) =~= od.fields@.skip(i + 1));
            }
            match self.register_type(&od.fields[i].type_descriptor) {
                Result::Ok(()) => {},
                Result::Err(e) => {
                    proof {
                        assert(spec_register_fields(before, od.fields@.skip(i as int))
                            == Result::<Seq<SpecMetaType>, SpecSchemaErr>::Err(e@));
                    }
                    return Result::Err(e);
                },
            }
            i = i + 1;
        }
        proof {
            assert(od.fields@.skip(od.fields@.len() as int) =~= Seq::<FieldDescriptor>::empty());
        }
        Result::Ok(())
    }
}

} // verus!
