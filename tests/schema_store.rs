use dbms_rust::binary_storage::{decode_schema, encode_schema, BinaryStorage};
use dbms_rust::errors::{HandlerError, ServiceError};
use dbms_rust::field_model::{Field, FieldInfo};
use dbms_rust::field_type::FieldType;

fn column(name: &str, field_type: FieldType, is_null: bool, is_pk: bool, is_fk: bool) -> FieldInfo {
    FieldInfo { field: Field { field_type, is_null, is_pk, is_fk }, field_name: name.to_string() }
}

fn same(a: &[FieldInfo], b: &[FieldInfo]) -> bool {
    a.len() == b.len() && a.iter().zip(b).all(|(x, y)| x.field == y.field && x.field_name == y.field_name)
}

#[test]
fn encoding_of_one_column() {
    let bytes = encode_schema(&vec![column("id", FieldType::Int, false, true, false)]);
    let expected: Vec<u8> = vec![
        1, 0, 0, 0, 0, 0, 0, 0, // one column
        2, 0, 0, 0, 0, 0, 0, 0, b'i', b'd', // its name
        0, 0, 0, 0, // Int
        0, 1, 0, // flags
    ];
    assert_eq!(bytes, expected);
}

#[test]
fn encoding_of_varchar_carries_its_length() {
    let bytes = encode_schema(&vec![column("n", FieldType::Varchar(50), true, false, false)]);
    let expected: Vec<u8> = vec![
        1, 0, 0, 0, 0, 0, 0, 0, 1, 0, 0, 0, 0, 0, 0, 0, b'n', 3, 0, 0, 0, 50, 0, 0, 0, 0, 0, 0, 0, 1, 0,
        0,
    ];
    assert_eq!(bytes, expected);
}

#[test]
fn schema_round_trip() {
    let schema = vec![
        column("id", FieldType::Int, false, true, false),
        column("name", FieldType::Varchar(50), true, false, false),
        column("prix \u{20ac}", FieldType::Double, false, false, true),
        column("", FieldType::Float, false, false, false),
        column("body", FieldType::Text, true, false, false),
        column("raw", FieldType::Blob, false, false, false),
        column("bad", FieldType::Incorrect, false, false, false),
    ];
    let decoded = decode_schema(&encode_schema(&schema)).unwrap();
    assert!(same(&decoded, &schema));
}

#[test]
fn empty_schema_round_trip() {
    let bytes = encode_schema(&vec![]);
    assert_eq!(bytes, vec![0u8; 8]);
    assert!(decode_schema(&bytes).unwrap().is_empty());
}

fn rejected(bytes: &[u8]) -> bool {
    matches!(decode_schema(bytes), Err(HandlerError::ServiceErrors(ServiceError::SchemaDecodeError)))
}

#[test]
fn truncated_bytes_are_rejected() {
    let bytes = encode_schema(&vec![column("id", FieldType::Varchar(9), false, false, false)]);
    for n in 0..bytes.len() {
        assert!(rejected(&bytes[..n]), "{}", n);
    }
}

#[test]
fn trailing_bytes_are_rejected() {
    let mut bytes = encode_schema(&vec![column("id", FieldType::Int, false, false, false)]);
    bytes.push(0);
    assert!(rejected(&bytes));
}

#[test]
fn bad_tags_flags_and_names_are_rejected() {
    let good = encode_schema(&vec![column("id", FieldType::Int, false, false, false)]);
    let mut bad_tag = good.clone();
    bad_tag[18] = 7;
    assert!(rejected(&bad_tag));
    let mut bad_flag = good.clone();
    bad_flag[22] = 2;
    assert!(rejected(&bad_flag));
    let mut bad_name = good.clone();
    bad_name[16] = 0xff;
    assert!(rejected(&bad_name));
}

#[test]
fn type_of_a_named_column() {
    let storage = BinaryStorage {
        table_name: "users".to_string(),
        fields: vec![
            column("id", FieldType::Int, false, true, false),
            column("name", FieldType::Varchar(50), false, false, false),
        ],
    };
    assert_eq!(storage.get_type("name".to_string()), FieldType::Varchar(50));
    assert_eq!(storage.get_type("id".to_string()), FieldType::Int);
    assert!(!storage.fields[0].field.is_null());
}
