use granc::codec::{EncodeReject, check_message, encode_reject_status};
use granc::descriptor::{
    DescriptorPool, EnumDecl, EnumValueDecl, FieldCard, FieldDecl, FieldKind, FileDecl,
    MessageDecl,
};
use granc::json::{JsonNum, JsonValue};
use granc::status::CODE_INVALID_ARGUMENT;

fn field(name: &str, number: u32, kind: FieldKind, card: FieldCard) -> FieldDecl {
    FieldDecl { name: name.to_string(), json_name: name.to_string(), number, kind, card }
}

fn schema_pool() -> DescriptorPool {
    let file = FileDecl {
        name: "schema.proto".to_string(),
        package: "pkg".to_string(),
        imports: vec![],
        messages: vec![
            MessageDecl {
                fqn: "pkg.Envelope".to_string(),
                package: "pkg".to_string(),
                name: "Envelope".to_string(),
                fields: vec![
                    field("message", 1, FieldKind::Str, FieldCard::Singular),
                    field("count", 2, FieldKind::Int32, FieldCard::Singular),
                    field("tags", 3, FieldKind::Str, FieldCard::Repeated),
                    field("status", 4, FieldKind::Enum("pkg.Status".to_string()), FieldCard::Singular),
                    field("inner", 5, FieldKind::Message("pkg.Inner".to_string()), FieldCard::Singular),
                ],
            },
            MessageDecl {
                fqn: "pkg.Inner".to_string(),
                package: "pkg".to_string(),
                name: "Inner".to_string(),
                fields: vec![field("id", 1, FieldKind::Uint32, FieldCard::Singular)],
            },
        ],
        enums: vec![EnumDecl {
            fqn: "pkg.Status".to_string(),
            package: "pkg".to_string(),
            name: "Status".to_string(),
            values: vec![
                EnumValueDecl { name: "UNKNOWN".to_string(), number: 0 },
                EnumValueDecl { name: "OK".to_string(), number: 1 },
            ],
        }],
        services: vec![],
    };
    DescriptorPool::from_file_descriptor_set(vec![file]).expect("builds")
}

fn member(key: &str, value: JsonValue) -> (String, JsonValue) {
    (key.to_string(), value)
}

#[test]
fn test_schema_mismatch_unknown_field() {
    let pool = schema_pool();
    let body = JsonValue::Obj(vec![member("unknown_field", JsonValue::Num(JsonNum::Int(123)))]);
    match check_message(&pool, "pkg.Envelope", &body) {
        Err(EncodeReject::UnknownField(k)) => assert_eq!(k, "unknown_field"),
        other => panic!("expected UnknownField, got {:?}", other),
    }
    // The rejection surfaces as INVALID_ARGUMENT naming the schema mismatch.
    let status = encode_reject_status(&EncodeReject::UnknownField("unknown_field".to_string()));
    assert_eq!(status.code, CODE_INVALID_ARGUMENT);
    assert!(status.message.contains("does not match Protobuf schema"));
}

#[test]
fn test_valid_body_passes() {
    let pool = schema_pool();
    let body = JsonValue::Obj(vec![
        member("message", JsonValue::Str("hello".to_string())),
        member("count", JsonValue::Num(JsonNum::Int(7))),
        member("tags", JsonValue::Arr(vec![JsonValue::Str("a".to_string())])),
        member("status", JsonValue::Str("OK".to_string())),
        member(
            "inner",
            JsonValue::Obj(vec![member("id", JsonValue::Num(JsonNum::Uint(4)))]),
        ),
    ]);
    assert!(check_message(&pool, "pkg.Envelope", &body).is_ok());
}

#[test]
fn test_non_object_body_rejected() {
    let pool = schema_pool();
    let r = check_message(&pool, "pkg.Envelope", &JsonValue::Str("nope".to_string()));
    assert_eq!(r, Err(EncodeReject::NotAnObject));
}

#[test]
fn test_wrong_kind_rejected() {
    let pool = schema_pool();
    let body = JsonValue::Obj(vec![member("message", JsonValue::Bool(true))]);
    match check_message(&pool, "pkg.Envelope", &body) {
        Err(EncodeReject::BadValue(_)) => {},
        other => panic!("expected BadValue, got {:?}", other),
    }
}

#[test]
fn test_int32_out_of_range_rejected() {
    let pool = schema_pool();
    let body = JsonValue::Obj(vec![member("count", JsonValue::Num(JsonNum::Int(2147483648)))]);
    match check_message(&pool, "pkg.Envelope", &body) {
        Err(EncodeReject::BadValue(_)) => {},
        other => panic!("expected BadValue, got {:?}", other),
    }
    let ok = JsonValue::Obj(vec![member("count", JsonValue::Num(JsonNum::Int(2147483647)))]);
    assert!(check_message(&pool, "pkg.Envelope", &ok).is_ok());
}

#[test]
fn test_decimal_literal_rejected_for_int_field() {
    let pool = schema_pool();
    let body = JsonValue::Obj(vec![member(
        "count",
        JsonValue::Num(JsonNum::Dec("1.5".to_string())),
    )]);
    match check_message(&pool, "pkg.Envelope", &body) {
        Err(EncodeReject::BadValue(_)) => {},
        other => panic!("expected BadValue, got {:?}", other),
    }
}

#[test]
fn test_repeated_field_requires_array() {
    let pool = schema_pool();
    let body = JsonValue::Obj(vec![member("tags", JsonValue::Str("solo".to_string()))]);
    match check_message(&pool, "pkg.Envelope", &body) {
        Err(EncodeReject::BadValue(_)) => {},
        other => panic!("expected BadValue, got {:?}", other),
    }
}

#[test]
fn test_enum_names_checked() {
    let pool = schema_pool();
    let bad = JsonValue::Obj(vec![member("status", JsonValue::Str("NOPE".to_string()))]);
    match check_message(&pool, "pkg.Envelope", &bad) {
        Err(EncodeReject::UnknownEnumName(v)) => assert_eq!(v, "NOPE"),
        other => panic!("expected UnknownEnumName, got {:?}", other),
    }
    let by_number = JsonValue::Obj(vec![member("status", JsonValue::Num(JsonNum::Int(1)))]);
    assert!(check_message(&pool, "pkg.Envelope", &by_number).is_ok());
}

#[test]
fn test_null_members_accepted() {
    let pool = schema_pool();
    let body = JsonValue::Obj(vec![
        member("message", JsonValue::Null),
        member("tags", JsonValue::Null),
        member("inner", JsonValue::Null),
    ]);
    assert!(check_message(&pool, "pkg.Envelope", &body).is_ok());
}

#[test]
fn test_nested_message_validated() {
    let pool = schema_pool();
    let body = JsonValue::Obj(vec![member(
        "inner",
        JsonValue::Obj(vec![member("ghost", JsonValue::Null)]),
    )]);
    match check_message(&pool, "pkg.Envelope", &body) {
        Err(EncodeReject::UnknownField(k)) => assert_eq!(k, "ghost"),
        other => panic!("expected UnknownField, got {:?}", other),
    }
}
