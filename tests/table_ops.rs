use dbms_rust::column_values::ColumnValues;
use dbms_rust::csv_store::{parse_table_rows, table_text};
use dbms_rust::db_object::DbObject;
use dbms_rust::errors::{HandlerError, ServiceError};
use dbms_rust::field_model::{Field, FieldInfo};
use dbms_rust::field_type::FieldType;
use dbms_rust::record_model::Record;
use dbms_rust::tb_object::TableObject;

fn column(name: &str, field_type: FieldType) -> FieldInfo {
    FieldInfo {
        field: Field { field_type, is_null: false, is_pk: false, is_fk: false },
        field_name: name.to_string(),
    }
}

fn values(pairs: &[(&str, &str)]) -> ColumnValues {
    let mut v = ColumnValues::new();
    for (k, x) in pairs {
        v.insert(k.to_string(), x.to_string());
    }
    v
}

fn rows(data: &[&[&str]]) -> Vec<Vec<String>> {
    data.iter().map(|r| r.iter().map(|s| s.to_string()).collect()).collect()
}

fn table(name: &str) -> TableObject {
    DbObject { name: "shop".to_string(), path: "/data".to_string() }.table(name.to_string())
}

fn users_schema() -> Vec<FieldInfo> {
    vec![column("id", FieldType::Int), column("name", FieldType::Text)]
}

#[test]
fn column_values_keep_one_value_per_column() {
    let mut v = values(&[("a", "1"), ("b", "2")]);
    v.insert("a".to_string(), "3".to_string());
    assert_eq!(v.len(), 2);
    assert_eq!(v.get("a").map(|s| s.as_str()), Some("3"));
    assert_eq!(v.get("b").map(|s| s.as_str()), Some("2"));
    assert_eq!(v.get("c"), None);
    let (k, x) = v.column_at(0);
    assert_eq!((k.as_str(), x.as_str()), ("a", "3"));
}

#[test]
fn paths_of_a_table() {
    let t = table("users");
    assert_eq!(t.get_path(), "/data/shop/users.csv");
    assert_eq!(t.get_info_path(), "/data/shop/users_info");
    assert_eq!(t.get_relations_path(), "/data/shop/relations.csv");
}

#[test]
fn headers_follow_schema_order() {
    let t = table("users");
    let h = t.get_headers(vec![column("b", FieldType::Int), column("a", FieldType::Text)]).unwrap();
    assert_eq!(h, vec!["b".to_string(), "a".to_string()]);
}

#[test]
fn scenario_users_insert_update_delete_column() {
    let t = table("users");
    let mut schema = vec![column("id", FieldType::Int), column("name", FieldType::Varchar(50))];
    let mut data: Vec<Vec<String>> = vec![];
    let mut relations: Vec<Record> = vec![];

    t.add_record(&schema, &mut data, &values(&[("id", "1"), ("name", "Alice")])).unwrap();
    assert_eq!(data, rows(&[&["1", "Alice"]]));
    assert_eq!(table_text(&schema, &data).unwrap(), "id,name\n1,Alice\n");

    let r = t.add_record(&schema, &mut data, &values(&[("id", "abc"), ("name", "Bob")]));
    match r {
        Err(HandlerError::ServiceErrors(ServiceError::ValueTypeMismatch { column, expected, value })) => {
            assert_eq!(column, "id");
            assert_eq!(expected, FieldType::Int);
            assert_eq!(value, "abc");
        },
        other => panic!("unexpected {:?}", other),
    }
    assert_eq!(data, rows(&[&["1", "Alice"]]));

    t.edit_record(&schema, &mut data, &values(&[("id", "1")]), &values(&[("name", "Alicia")])).unwrap();
    assert_eq!(data, rows(&[&["1", "Alicia"]]));

    t.delete_row(&mut schema, &mut data, &mut relations, "name").unwrap();
    assert_eq!(schema.len(), 1);
    assert_eq!(schema[0].field_name, "id");
    assert_eq!(data, rows(&[&["1"]]));
}

#[test]
fn varchar_takes_texts_within_its_length() {
    let t = table("users");
    let schema = vec![column("code", FieldType::Varchar(3))];
    let mut data: Vec<Vec<String>> = vec![];
    t.add_record(&schema, &mut data, &values(&[("code", "abc")])).unwrap();
    t.add_record(&schema, &mut data, &values(&[("code", "")])).unwrap();
    let r = t.add_record(&schema, &mut data, &values(&[("code", "abcd")]));
    assert!(matches!(r, Err(HandlerError::ServiceErrors(ServiceError::ValueTypeMismatch { ref value, .. })) if value == "abcd"));
    let r = t.add_record(&schema, &mut data, &values(&[("code", "12")]));
    assert!(matches!(r, Err(HandlerError::ServiceErrors(ServiceError::ValueTypeMismatch { .. }))));
    assert_eq!(data, rows(&[&["abc"], &[""]]));
}

#[test]
fn insert_without_a_column_fails() {
    let t = table("users");
    let mut data = rows(&[&["1", "Alice"]]);
    let r = t.add_record(&users_schema(), &mut data, &values(&[("id", "2")]));
    match r {
        Err(HandlerError::ServiceErrors(ServiceError::MissingColumn(c))) => assert_eq!(c, "name"),
        other => panic!("unexpected {:?}", other),
    }
    assert_eq!(data, rows(&[&["1", "Alice"]]));
}

#[test]
fn insert_reports_the_first_bad_column() {
    let t = table("users");
    let mut data = vec![];
    let r = t.add_record(&users_schema(), &mut data, &values(&[("name", "5")]));
    assert!(matches!(r, Err(HandlerError::ServiceErrors(ServiceError::MissingColumn(ref c))) if c == "id"));
    let r = t.add_record(&users_schema(), &mut data, &values(&[("id", "x"), ("name", "5")]));
    assert!(matches!(r, Err(HandlerError::ServiceErrors(ServiceError::ValueTypeMismatch { ref column, .. })) if column == "id"));
}

#[test]
fn insert_ignores_extra_columns_and_orders_by_schema() {
    let t = table("users");
    let mut data = vec![];
    t.add_record(&users_schema(), &mut data, &values(&[("extra", "z"), ("name", "Eve"), ("id", "-3")])).unwrap();
    assert_eq!(data, rows(&[&["-3", "Eve"]]));
}

fn people() -> Vec<Vec<String>> {
    rows(&[&["1", "Ann", "30"], &["2", "Bob", "30"], &["3", "Ann", "41"]])
}

fn people_schema() -> Vec<FieldInfo> {
    vec![column("id", FieldType::Int), column("name", FieldType::Text), column("age", FieldType::Int)]
}

#[test]
fn update_needs_every_condition() {
    let t = table("people");
    let mut data = people();
    t.edit_record(&people_schema(), &mut data, &values(&[("name", "Ann"), ("age", "30")]), &values(&[("age", "31")]))
        .unwrap();
    assert_eq!(data, rows(&[&["1", "Ann", "31"], &["2", "Bob", "30"], &["3", "Ann", "41"]]));
}

#[test]
fn update_changes_every_matching_row() {
    let t = table("people");
    let mut data = people();
    t.edit_record(&people_schema(), &mut data, &values(&[("name", "Ann")]), &values(&[("name", "Anna")])).unwrap();
    assert_eq!(data, rows(&[&["1", "Anna", "30"], &["2", "Bob", "30"], &["3", "Anna", "41"]]));
}

#[test]
fn update_without_match_changes_nothing() {
    let t = table("people");
    let mut data = people();
    t.edit_record(&people_schema(), &mut data, &values(&[("name", "Zed")]), &values(&[("name", "X")])).unwrap();
    assert_eq!(data, people());
    t.edit_record(&people_schema(), &mut data, &values(&[]), &values(&[("name", "X")])).unwrap();
    assert_eq!(data, people());
    t.edit_record(&people_schema(), &mut data, &values(&[("nope", "1")]), &values(&[("name", "X")])).unwrap();
    assert_eq!(data, people());
}

#[test]
fn update_with_too_many_changes_fails() {
    let t = table("people");
    let mut data = people();
    let changes = values(&[("id", "1"), ("name", "A"), ("age", "2"), ("other", "3")]);
    let r = t.edit_record(&people_schema(), &mut data, &values(&[("id", "1")]), &changes);
    assert!(matches!(r, Err(HandlerError::ServiceErrors(ServiceError::TooManyArgs))));
    assert_eq!(data, people());
}

#[test]
fn update_with_a_value_of_another_type_fails() {
    let t = table("people");
    let mut data = people();
    let r = t.edit_record(&people_schema(), &mut data, &values(&[("name", "Ann")]), &values(&[("age", "old")]));
    assert!(matches!(r, Err(HandlerError::ServiceErrors(ServiceError::TypeDoesntMatch))));
    assert_eq!(data, people());
}

#[test]
fn delete_drops_matching_rows_only() {
    let t = table("people");
    let mut data = people();
    t.delete_record(&people_schema(), &mut data, &values(&[("age", "30")])).unwrap();
    assert_eq!(data, rows(&[&["3", "Ann", "41"]]));
    let mut data = people();
    t.delete_record(&people_schema(), &mut data, &values(&[("name", "Ann"), ("age", "41")])).unwrap();
    assert_eq!(data, rows(&[&["1", "Ann", "30"], &["2", "Bob", "30"]]));
}

#[test]
fn delete_without_match_keeps_all_rows() {
    let t = table("people");
    let mut data = people();
    t.delete_record(&people_schema(), &mut data, &values(&[("age", "99")])).unwrap();
    assert_eq!(data, people());
    t.delete_record(&people_schema(), &mut data, &values(&[])).unwrap();
    assert_eq!(data, people());
}

#[test]
fn delete_column_cascades_into_relations() {
    let t = table("people");
    let mut schema = people_schema();
    let mut data = people();
    let mut relations = vec![
        Record::new("people".to_string(), "cities".to_string(), "age".to_string()),
        Record::new("orders".to_string(), "people".to_string(), "age".to_string()),
        Record::new("orders".to_string(), "people".to_string(), "id".to_string()),
        Record::new("orders".to_string(), "cities".to_string(), "age".to_string()),
    ];
    t.delete_row(&mut schema, &mut data, &mut relations, "age").unwrap();
    let names: Vec<&str> = schema.iter().map(|f| f.field_name.as_str()).collect();
    assert_eq!(names, vec!["id", "name"]);
    assert_eq!(data, rows(&[&["1", "Ann"], &["2", "Bob"], &["3", "Ann"]]));
    let kept: Vec<(&str, &str, &str)> =
        relations.iter().map(|r| (r.from_table.as_str(), r.to_table.as_str(), r.field.as_str())).collect();
    assert_eq!(kept, vec![("orders", "people", "id"), ("orders", "cities", "age")]);
}

#[test]
fn delete_missing_column_fails() {
    let t = table("people");
    let mut schema = people_schema();
    let mut data = people();
    let mut relations = vec![Record::new("people".to_string(), "x".to_string(), "zzz".to_string())];
    let r = t.delete_row(&mut schema, &mut data, &mut relations, "zzz");
    assert!(matches!(r, Err(HandlerError::ServiceErrors(ServiceError::ColumnNotFound(ref c))) if c == "zzz"));
    assert_eq!(schema.len(), 3);
    assert_eq!(data, people());
    assert_eq!(relations.len(), 1);
}

#[test]
fn find_gives_the_first_holding_row() {
    let t = table("people");
    let data = people();
    assert_eq!(t.find_record_by_name(&data, "30"), Some(rows(&[&["1", "Ann", "30"]]).remove(0)));
    assert_eq!(t.find_record_by_name(&data, "Bob"), Some(rows(&[&["2", "Bob", "30"]]).remove(0)));
    assert_eq!(t.find_record_by_name(&data, "nobody"), None);
}

#[test]
fn delete_table_is_not_offered() {
    assert!(matches!(table("x").delete_table(), Err(HandlerError::ServiceErrors(ServiceError::NotSupported))));
}

#[test]
fn table_text_quotes_where_needed() {
    let schema = users_schema();
    let data = rows(&[&["1", "Smith, Ann"], &["2", "say \"hi\""]]);
    let text = table_text(&schema, &data).unwrap();
    assert_eq!(text, "id,name\n1,\"Smith, Ann\"\n2,\"say \"\"hi\"\"\"\n");
    assert_eq!(parse_table_rows(&text).unwrap(), data);
}

#[test]
fn table_rows_skip_the_header() {
    assert_eq!(parse_table_rows("id,name\n1,Ann\n2,Bob\n").unwrap(), rows(&[&["1", "Ann"], &["2", "Bob"]]));
    assert!(parse_table_rows("id,name\n").unwrap().is_empty());
}

#[test]
fn malformed_table_text_fails() {
    assert!(matches!(parse_table_rows(""), Err(HandlerError::ServiceErrors(ServiceError::MalformedTable))));
    assert!(matches!(
        parse_table_rows("id,name\n1,Ann,extra\n"),
        Err(HandlerError::ServiceErrors(ServiceError::MalformedTable))
    ));
}
