use input_object::decode::decode;
use input_object::descriptor::{DefaultValue, FieldDescriptor, ObjectDescriptor, TypeDescriptor};
use input_object::meta::build_meta_type;
use input_object::rename::RenamePolicy;
use input_object::value::{
    DecodedRecord, DecodedValue, InputValue, MapEntry, RecordField, ScalarValue,
};

fn field(name: &str, td: TypeDescriptor) -> FieldDescriptor {
    FieldDescriptor {
        source_name: name.to_string(),
        rename_override: None,
        type_descriptor: td,
        default: DefaultValue::NoDefault,
        doc_lines: vec![],
        description_override: None,
    }
}

/// The sample input object: `regular_field: String`, `c: Int` on the wire
/// as `haha` with default `33`, `other: Option<Boolean>` defaulting to its
/// absence value.
fn input_descriptor() -> ObjectDescriptor {
    ObjectDescriptor {
        name: "Input".to_string(),
        name_override: Some("MyInput".to_string()),
        rename_policy: RenamePolicy::DefaultTransform,
        doc_lines: vec![],
        description_override: Some("input descr".to_string()),
        fields: vec![
            field("regular_field", TypeDescriptor::Str),
            FieldDescriptor {
                source_name: "c".to_string(),
                rename_override: Some("haha".to_string()),
                type_descriptor: TypeDescriptor::Int,
                default: DefaultValue::Literal(DecodedValue::Int(33)),
                doc_lines: vec![],
                description_override: Some("haha descr".to_string()),
            },
            FieldDescriptor {
                source_name: "other".to_string(),
                rename_override: None,
                type_descriptor: TypeDescriptor::Optional(Box::new(TypeDescriptor::Boolean)),
                default: DefaultValue::TypeAbsence,
                doc_lines: vec![],
                description_override: None,
            },
        ],
    }
}

fn entry(key: &str, value: InputValue) -> MapEntry {
    MapEntry { key: key.to_string(), value }
}

fn record(fields: Vec<(&str, DecodedValue)>) -> DecodedRecord {
    DecodedRecord {
        fields: fields
            .into_iter()
            .map(|(name, value)| RecordField { name: name.to_string(), value })
            .collect(),
    }
}

#[test]
fn validate_meta_info() {
    let od = input_descriptor();
    let meta = build_meta_type(&od);
    assert_eq!(input_object::descriptor::object_name(&od), "MyInput".to_string());
    assert_eq!(meta.name, "MyInput".to_string());
    assert_eq!(meta.description, Some("input descr".to_string()));
}

#[test]
fn test_default_value_injection() {
    let input_no_defaults = InputValue::Mapping(vec![entry(
        "regularField",
        InputValue::Scalar(ScalarValue::Str("a".to_string())),
    )]);

    let output_no_defaults = decode(&input_no_defaults, &input_descriptor()).unwrap();
    assert_eq!(
        output_no_defaults,
        record(vec![
            ("regular_field", DecodedValue::Str("a".to_string())),
            ("c", DecodedValue::Int(33)),
            ("other", DecodedValue::Absent),
        ])
    );
}

#[test]
fn test_with_all_values_supplied() {
    let input = InputValue::Mapping(vec![
        entry("regularField", InputValue::Scalar(ScalarValue::Str("a".to_string()))),
        entry("haha", InputValue::Scalar(ScalarValue::Int(55))),
        entry("other", InputValue::Scalar(ScalarValue::Boolean(true))),
    ]);

    let output = decode(&input, &input_descriptor()).unwrap();
    assert_eq!(
        output,
        record(vec![
            ("regular_field", DecodedValue::Str("a".to_string())),
            ("c", DecodedValue::Int(55)),
            (
                "other",
                DecodedValue::Present(Box::new(DecodedValue::Boolean(true)))
            ),
        ])
    );
}

#[test]
fn test_renaming_disabled() {
    let od = ObjectDescriptor {
        name: "NoRenameInput".to_string(),
        name_override: None,
        rename_policy: RenamePolicy::Identity,
        doc_lines: vec![],
        description_override: None,
        fields: vec![field("regular_field", TypeDescriptor::Str)],
    };
    let input = InputValue::Mapping(vec![entry(
        "regular_field",
        InputValue::Scalar(ScalarValue::Str("hello".to_string())),
    )]);

    let output = decode(&input, &od).unwrap();
    assert_eq!(
        output,
        record(vec![("regular_field", DecodedValue::Str("hello".to_string()))])
    );
}

#[test]
fn test_array() {
    let od = ObjectDescriptor {
        name: "ArrayInput".to_string(),
        name_override: None,
        rename_policy: RenamePolicy::DefaultTransform,
        doc_lines: vec![],
        description_override: None,
        fields: vec![field(
            "data",
            TypeDescriptor::FixedArray(Box::new(TypeDescriptor::Int), 3),
        )],
    };
    let input = InputValue::Mapping(vec![entry(
        "data",
        InputValue::Sequence(vec![
            InputValue::Scalar(ScalarValue::Int(1)),
            InputValue::Scalar(ScalarValue::Int(2)),
            InputValue::Scalar(ScalarValue::Int(3)),
        ]),
    )]);

    let output = decode(&input, &od).unwrap();
    assert_eq!(
        output,
        record(vec![(
            "data",
            DecodedValue::Sequence(vec![
                DecodedValue::Int(1),
                DecodedValue::Int(2),
                DecodedValue::Int(3),
            ])
        )])
    );
}

fn doc_object(doc_lines: Vec<&str>, description_override: Option<&str>) -> ObjectDescriptor {
    ObjectDescriptor {
        name: "DocComment".to_string(),
        name_override: None,
        rename_policy: RenamePolicy::DefaultTransform,
        doc_lines: doc_lines.into_iter().map(|l| l.to_string()).collect(),
        description_override: description_override.map(|s| s.to_string()),
        fields: vec![field("regular_field", TypeDescriptor::Boolean)],
    }
}

#[test]
fn test_doc_comment() {
    let meta = build_meta_type(&doc_object(vec![" Object comment."], None));
    assert_eq!(meta.description, Some("Object comment.".to_string()));
}

#[test]
fn test_multi_doc_comment() {
    let meta = build_meta_type(&doc_object(
        vec![" Doc 1.\\", " Doc 2.", "", " Doc 4."],
        None,
    ));
    assert_eq!(meta.description, Some("Doc 1. Doc 2.\n\nDoc 4.".to_string()));
}

#[test]
fn test_doc_comment_override() {
    let meta = build_meta_type(&doc_object(
        vec![" This is not used as the description."],
        Some("obj override"),
    ));
    assert_eq!(meta.description, Some("obj override".to_string()));
}
