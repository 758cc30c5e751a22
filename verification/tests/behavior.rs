use input_object::decode::{decode, decode_value, DecodeError};
use input_object::descriptor::{
    check_object, field_wire_name, DefaultValue, FieldDescriptor, ObjectDescriptor,
    TypeDescriptor,
};
use input_object::docs::aggregate;
use input_object::encode::{encode_record, encode_value};
use input_object::meta::{build_meta_type, Registry};
use input_object::rename::{camelize, resolve_wire_name, RenamePolicy};
use input_object::render::{int_dec, render_decoded};
use input_object::value::{DecodedValue, InputValue, MapEntry, ScalarValue};
use input_object::Root;

fn field(name: &str, td: TypeDescriptor) -> FieldDescriptor {
    FieldDescriptor {
        source_name: name.to_string(),
        rename_override: None,
        type_descriptor: td,
        default: DefaultValue::NoDefault,
        doc_lines: vec![],
        description_override: None,
    }
}

fn object(name: &str, policy: RenamePolicy, fields: Vec<FieldDescriptor>) -> ObjectDescriptor {
    ObjectDescriptor {
        name: name.to_string(),
        name_override: None,
        rename_policy: policy,
        doc_lines: vec![],
        description_override: None,
        fields,
    }
}

fn entry(key: &str, value: InputValue) -> MapEntry {
    MapEntry { key: key.to_string(), value }
}

fn array_object() -> ObjectDescriptor {
    object(
        "ArrayInput",
        RenamePolicy::DefaultTransform,
        vec![field(
            "data",
            TypeDescriptor::FixedArray(Box::new(TypeDescriptor::Int), 3),
        )],
    )
}

#[test]
fn renaming_applies_default_transform() {
    assert_eq!(camelize("regular_field"), "regularField".to_string());
    assert_eq!(
        resolve_wire_name("regular_field", RenamePolicy::DefaultTransform, None),
        "regularField".to_string()
    );
    assert_eq!(
        resolve_wire_name("regular_field", RenamePolicy::Identity, None),
        "regular_field".to_string()
    );
    assert_eq!(
        resolve_wire_name("c", RenamePolicy::DefaultTransform, Some("haha")),
        "haha".to_string()
    );
}

#[test]
fn renaming_identity_rejects_transformed_key() {
    let od = object(
        "NoRenameInput",
        RenamePolicy::Identity,
        vec![field("regular_field", TypeDescriptor::Str)],
    );
    let input = InputValue::Mapping(vec![entry(
        "regularField",
        InputValue::Scalar(ScalarValue::Str("hello".to_string())),
    )]);
    let err = decode(&input, &od).unwrap_err();
    assert_eq!(err, DecodeError::MissingField { field: "regular_field".to_string() });
}

#[test]
fn array_length_mismatch_is_reported() {
    let input = InputValue::Mapping(vec![entry(
        "data",
        InputValue::Sequence(vec![
            InputValue::Scalar(ScalarValue::Int(1)),
            InputValue::Scalar(ScalarValue::Int(2)),
        ]),
    )]);
    let err = decode(&input, &array_object()).unwrap_err();
    assert_eq!(
        err,
        DecodeError::NestedFieldError {
            field: "data".to_string(),
            cause: Box::new(DecodeError::ArrayLengthMismatch { expected: 3, actual: 2 }),
        }
    );
}

#[test]
fn array_element_mismatch_is_reported() {
    let input = InputValue::Mapping(vec![entry(
        "data",
        InputValue::Sequence(vec![
            InputValue::Scalar(ScalarValue::Str("foo".to_string())),
            InputValue::Scalar(ScalarValue::Str("bar".to_string())),
            InputValue::Scalar(ScalarValue::Str("baz".to_string())),
        ]),
    )]);
    let err = decode(&input, &array_object()).unwrap_err();
    assert_eq!(
        err,
        DecodeError::NestedFieldError {
            field: "data".to_string(),
            cause: Box::new(DecodeError::ElementTypeMismatch {
                index: 0,
                cause: Box::new(DecodeError::TypeMismatch),
            }),
        }
    );
}

#[test]
fn non_mapping_input_is_a_type_mismatch() {
    let err = decode(&InputValue::Scalar(ScalarValue::Int(1)), &array_object()).unwrap_err();
    assert_eq!(err, DecodeError::TypeMismatch);
}

#[test]
fn explicit_null_applies_the_default() {
    let od = object(
        "WithDefault",
        RenamePolicy::DefaultTransform,
        vec![FieldDescriptor {
            source_name: "c".to_string(),
            rename_override: None,
            type_descriptor: TypeDescriptor::Int,
            default: DefaultValue::Literal(DecodedValue::Int(33)),
            doc_lines: vec![],
            description_override: None,
        }],
    );
    let input = InputValue::Mapping(vec![entry("c", InputValue::Null)]);
    let out = decode(&input, &od).unwrap();
    assert_eq!(out.fields[0].value, DecodedValue::Int(33));
}

#[test]
fn opaque_fields_never_decode() {
    let od = object(
        "WithLifetime",
        RenamePolicy::DefaultTransform,
        vec![field(
            "regular_field",
            TypeDescriptor::Opaque(None),
        )],
    );
    let input = InputValue::Mapping(vec![entry(
        "regularField",
        InputValue::Scalar(ScalarValue::Str("this is fake".to_string())),
    )]);
    let err = decode(&input, &od).unwrap_err();
    assert_eq!(
        err,
        DecodeError::NestedFieldError {
            field: "regularField".to_string(),
            cause: Box::new(DecodeError::TypeMismatch),
        }
    );
}

#[test]
fn nested_object_errors_carry_the_path() {
    let inner = object(
        "Inner",
        RenamePolicy::DefaultTransform,
        vec![field("flag", TypeDescriptor::Boolean)],
    );
    let outer = object(
        "Outer",
        RenamePolicy::DefaultTransform,
        vec![field("inner", TypeDescriptor::Object(Box::new(inner)))],
    );
    let bad = InputValue::Mapping(vec![entry(
        "inner",
        InputValue::Mapping(vec![entry("flag", InputValue::Scalar(ScalarValue::Int(1)))]),
    )]);
    let err = decode(&bad, &outer).unwrap_err();
    assert_eq!(
        err,
        DecodeError::NestedFieldError {
            field: "inner".to_string(),
            cause: Box::new(DecodeError::NestedFieldError {
                field: "flag".to_string(),
                cause: Box::new(DecodeError::TypeMismatch),
            }),
        }
    );

    let good = InputValue::Mapping(vec![entry(
        "inner",
        InputValue::Mapping(vec![entry(
            "flag",
            InputValue::Scalar(ScalarValue::Boolean(true)),
        )]),
    )]);
    let out = decode(&good, &outer).unwrap();
    assert_eq!(out.fields.len(), 1);
}

#[test]
fn round_trip_reproduces_the_record() {
    let od = ObjectDescriptor {
        name: "Input".to_string(),
        name_override: Some("MyInput".to_string()),
        rename_policy: RenamePolicy::DefaultTransform,
        doc_lines: vec![],
        description_override: None,
        fields: vec![
            field("regular_field", TypeDescriptor::Str),
            FieldDescriptor {
                source_name: "c".to_string(),
                rename_override: Some("haha".to_string()),
                type_descriptor: TypeDescriptor::Int,
                default: DefaultValue::Literal(DecodedValue::Int(33)),
                doc_lines: vec![],
                description_override: None,
            },
            FieldDescriptor {
                source_name: "other".to_string(),
                rename_override: None,
                type_descriptor: TypeDescriptor::Optional(Box::new(TypeDescriptor::Boolean)),
                default: DefaultValue::TypeAbsence,
                doc_lines: vec![],
                description_override: None,
            },
        ],
    };
    let input = InputValue::Mapping(vec![entry(
        "regularField",
        InputValue::Scalar(ScalarValue::Str("a".to_string())),
    )]);
    let first = decode(&input, &od).unwrap();
    let encoded = encode_record(&first, &od);
    let second = decode(&encoded, &od).unwrap();
    assert_eq!(first, second);
}

#[test]
fn encode_writes_wire_names() {
    let od = array_object();
    let input = InputValue::Mapping(vec![entry(
        "data",
        InputValue::Sequence(vec![
            InputValue::Scalar(ScalarValue::Int(1)),
            InputValue::Scalar(ScalarValue::Int(2)),
            InputValue::Scalar(ScalarValue::Int(3)),
        ]),
    )]);
    let rec = decode(&input, &od).unwrap();
    let encoded = encode_record(&rec, &od);
    match &encoded {
        InputValue::Mapping(es) => {
            assert_eq!(es.len(), 1);
            assert_eq!(es[0].key, "data".to_string());
        },
        _ => panic!("expected a mapping"),
    }
    let v = encode_value(
        &TypeDescriptor::Optional(Box::new(TypeDescriptor::Boolean)),
        &DecodedValue::Absent,
    );
    assert_eq!(v, InputValue::Null);
}

#[test]
fn scalar_value_decode_matches_type() {
    let ok = decode_value(&TypeDescriptor::Int, &InputValue::Scalar(ScalarValue::Int(7)));
    assert_eq!(ok.unwrap(), DecodedValue::Int(7));
    let bad = decode_value(&TypeDescriptor::Int, &InputValue::Scalar(ScalarValue::Boolean(true)));
    assert_eq!(bad.unwrap_err(), DecodeError::TypeMismatch);
}

#[test]
fn duplicate_wire_names_are_refused() {
    let od = object(
        "Clash",
        RenamePolicy::DefaultTransform,
        vec![
            field("some_field", TypeDescriptor::Int),
            FieldDescriptor {
                source_name: "other_name".to_string(),
                rename_override: Some("someField".to_string()),
                type_descriptor: TypeDescriptor::Int,
                default: DefaultValue::NoDefault,
                doc_lines: vec![],
                description_override: None,
            },
        ],
    );
    assert!(!check_object(&od));
    let mut reg = Registry::new();
    let r = reg.register_object(&od);
    assert!(matches!(
        r,
        Err(input_object::meta::SchemaError::InvalidDescriptor)
    ));
}

#[test]
fn conflicting_registration_is_an_error() {
    let a = object(
        "Shape",
        RenamePolicy::DefaultTransform,
        vec![field("x", TypeDescriptor::Int)],
    );
    let b = object(
        "Shape",
        RenamePolicy::DefaultTransform,
        vec![field("x", TypeDescriptor::Str)],
    );
    let mut reg = Registry::new();
    reg.register_object(&a).unwrap();
    reg.register_object(&a).unwrap();
    let r = reg.register_object(&b);
    match r {
        Err(input_object::meta::SchemaError::ConflictingType { name }) => {
            assert_eq!(name, "Shape".to_string());
        },
        other => panic!("expected a conflict, got {:?}", other),
    }
}

#[test]
fn registration_is_transitive() {
    let inner = object(
        "Inner",
        RenamePolicy::DefaultTransform,
        vec![field("flag", TypeDescriptor::Boolean)],
    );
    let outer = object(
        "Outer",
        RenamePolicy::DefaultTransform,
        vec![
            field("inner", TypeDescriptor::Object(Box::new(inner))),
            field(
                "data",
                TypeDescriptor::FixedArray(Box::new(TypeDescriptor::Int), 3),
            ),
        ],
    );
    let mut reg = Registry::new();
    reg.register_object(&outer).unwrap();
    assert!(reg.lookup(&"Outer".to_string()).is_some());
    assert!(reg.lookup(&"Inner".to_string()).is_some());
    assert!(reg.lookup(&"Int".to_string()).is_some());
    assert!(reg.lookup(&"Boolean".to_string()).is_some());
    assert!(reg.lookup(&"Missing".to_string()).is_none());
}

#[test]
fn field_meta_holds_resolved_names_and_defaults() {
    let f = FieldDescriptor {
        source_name: "c".to_string(),
        rename_override: Some("haha".to_string()),
        type_descriptor: TypeDescriptor::Int,
        default: DefaultValue::Literal(DecodedValue::Int(33)),
        doc_lines: vec![" haha descr".to_string()],
        description_override: None,
    };
    let od = object("Input", RenamePolicy::DefaultTransform, vec![f]);
    let meta = build_meta_type(&od);
    assert_eq!(meta.fields.len(), 1);
    assert_eq!(meta.fields[0].wire_name, "haha".to_string());
    assert_eq!(meta.fields[0].description, Some("haha descr".to_string()));
    assert_eq!(meta.fields[0].default_display, Some("33".to_string()));
    assert_eq!(meta.fields[0].type_label, "Int".to_string());
    assert_eq!(
        field_wire_name(&od.fields[0], RenamePolicy::DefaultTransform),
        "haha".to_string()
    );
}

#[test]
fn field_description_override_wins_over_comments() {
    let f = FieldDescriptor {
        source_name: "regular_field".to_string(),
        rename_override: None,
        type_descriptor: TypeDescriptor::Boolean,
        default: DefaultValue::NoDefault,
        doc_lines: vec![" This is not used as the description.".to_string()],
        description_override: Some("field override".to_string()),
    };
    let od = object("OverrideDocComment", RenamePolicy::DefaultTransform, vec![f]);
    let meta = build_meta_type(&od);
    assert_eq!(meta.fields[0].description, Some("field override".to_string()));
}

#[test]
fn rendered_literals_are_exact() {
    assert_eq!(int_dec(0), "0".to_string());
    assert_eq!(int_dec(-5), "-5".to_string());
    assert_eq!(int_dec(9223372036854775807), "9223372036854775807".to_string());
    assert_eq!(int_dec(-9223372036854775808), "-9223372036854775808".to_string());
    assert_eq!(
        render_decoded(&DecodedValue::Str("hi".to_string())),
        "\"hi\"".to_string()
    );
    assert_eq!(render_decoded(&DecodedValue::Boolean(true)), "true".to_string());
    assert_eq!(render_decoded(&DecodedValue::Absent), "null".to_string());
    assert_eq!(
        render_decoded(&DecodedValue::Sequence(vec![
            DecodedValue::Int(1),
            DecodedValue::Int(2),
            DecodedValue::Int(3),
        ])),
        "[1, 2, 3]".to_string()
    );
}

#[test]
fn aggregation_edge_cases() {
    assert_eq!(aggregate(&vec![], None), None);
    assert_eq!(
        aggregate(&vec!["".to_string(), "".to_string()], None),
        None
    );
    assert_eq!(
        aggregate(&vec!["  padded  ".to_string()], None),
        Some("padded".to_string())
    );
    assert_eq!(
        aggregate(&vec!["ignored".to_string()], Some("explicit")),
        Some("explicit".to_string())
    );
    assert_eq!(
        aggregate(
            &vec![" Field 1.".to_string(), " Field 2.".to_string()],
            None
        ),
        Some("Field 1. Field 2.".to_string())
    );
}

#[test]
fn root_accepts_bound_arrays() {
    assert!(Root::x([1, 2, 3]));
}
