use dbms_rust::asserts::AssertFailure;
use dbms_rust::errors::{HandlerError, OperationFailure, ServiceError, TableFailure};
use dbms_rust::field_type::FieldType;
use dbms_rust::text::decimal;

#[test]
fn decimal_writing() {
    assert_eq!(decimal(0), "0");
    assert_eq!(decimal(7), "7");
    assert_eq!(decimal(10), "10");
    assert_eq!(decimal(4096), "4096");
    assert_eq!(decimal(usize::MAX), usize::MAX.to_string());
}

#[test]
fn failure_descriptions() {
    let op = OperationFailure { path: "src/a.rs".to_string(), line: 42, msg: "boom".to_string() };
    assert_eq!(op.message(), "File src/a.rs:42.\nMessage:\nboom");
    assert_eq!(op.pretty(), "src/a.rs:42.\nboom");
    let t = TableFailure { record: "{id:1}".to_string(), msg: "bad".to_string() };
    assert_eq!(t.message(), "Where error occurred :{id:1}.\nMessage:\nbad");
    assert_eq!(t.pretty(), "{id:1}.\nbad");
    let a = AssertFailure { path: "p".to_string(), line: 3, msg: "m".to_string() };
    assert_eq!(a.message(), "File p:3.\nMessage:\nm");
    assert_eq!(a.pretty(), "p:3.\nm");
}

#[test]
fn service_error_descriptions() {
    assert_eq!(ServiceError::TooManyArgs.message(), "Too many arguments were given.");
    assert_eq!(ServiceError::CreateFileError("x".to_string()).message(), "Failed to create file: x");
    let e = ServiceError::ValueTypeMismatch { column: "id".to_string(), expected: FieldType::Int, value: "abc".to_string() };
    assert_eq!(e.message(), "Value 'abc' doesn't match the type of column id");
    let e = ServiceError::ForeignKeyMismatch { field: "id".to_string(), target_table: "users".to_string() };
    assert_eq!(e.message(), "Field types don't match for foreign key from 'id' to 'users'");
    let h = HandlerError::ServiceErrors(ServiceError::ColumnNotFound("age".to_string()));
    assert_eq!(h.message(), "Column doesn't exist: age");
}
