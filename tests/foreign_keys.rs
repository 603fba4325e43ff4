use dbms_rust::binary_storage::decode_schema;
use dbms_rust::csv_store::{read_relations_data, relations_text};
use dbms_rust::db_object::DbObject;
use dbms_rust::errors::{HandlerError, ServiceError};
use dbms_rust::field_model::{Field, FieldInfo, ForeignKey};
use dbms_rust::field_type::FieldType;
use dbms_rust::record_model::Record;

fn column(name: &str, field_type: FieldType) -> FieldInfo {
    FieldInfo {
        field: Field { field_type, is_null: false, is_pk: false, is_fk: false },
        field_name: name.to_string(),
    }
}

fn db() -> DbObject {
    DbObject { name: "shop".to_string(), path: "/data".to_string() }
}

fn users() -> Vec<FieldInfo> {
    vec![column("id", FieldType::Int), column("name", FieldType::Text)]
}

fn fk(table: &str, field: &str) -> ForeignKey {
    ForeignKey::new(table.to_string(), field.to_string())
}

fn triples(rels: &[Record]) -> Vec<(String, String, String)> {
    rels.iter().map(|r| (r.from_table.clone(), r.to_table.clone(), r.field.clone())).collect()
}

#[test]
fn scenario_orders_with_matching_key() {
    let mut relations: Vec<Record> = vec![];
    let orders = vec![column("id", FieldType::Int), column("total", FieldType::Float)];
    let created = db()
        .create_table("orders".to_string(), &orders, &vec![fk("users", "id")], &vec![users()], &mut relations)
        .unwrap();
    let t = created.table;
    assert_eq!(t.table_name, "orders");
    assert_eq!(t.db_name, "shop");
    assert_eq!(t.db_path, "/data");
    assert_eq!(triples(&relations), vec![("orders".to_string(), "users".to_string(), "id".to_string())]);
    assert_eq!(relations_text(&relations).unwrap(), "from_table,to_table,field\norders,users,id\n");
}

#[test]
fn scenario_orders_with_clashing_key() {
    let mut relations = vec![Record::new("a".to_string(), "b".to_string(), "c".to_string())];
    let orders = vec![column("id", FieldType::Varchar(10))];
    let r = db().create_table("orders".to_string(), &orders, &vec![fk("users", "id")], &vec![users()], &mut relations);
    match r {
        Err(HandlerError::ServiceErrors(ServiceError::ForeignKeyMismatch { field, target_table })) => {
            assert_eq!(field, "id");
            assert_eq!(target_table, "users");
        },
        other => panic!("unexpected {:?}", other),
    }
    assert_eq!(triples(&relations), vec![("a".to_string(), "b".to_string(), "c".to_string())]);
}

#[test]
fn keys_are_recorded_all_or_none() {
    let mut relations: Vec<Record> = vec![];
    let cities = vec![column("code", FieldType::Text)];
    let own = vec![column("id", FieldType::Int), column("code", FieldType::Int)];
    let keys = vec![fk("users", "id"), fk("cities", "code")];
    let r = db().add_fks(&db().table("orders".to_string()), &own, &keys, &vec![users(), cities], &mut relations);
    assert!(matches!(r, Err(HandlerError::ServiceErrors(ServiceError::ForeignKeyMismatch { ref target_table, .. })) if target_table == "cities"));
    assert!(relations.is_empty());
}

#[test]
fn several_keys_are_recorded_in_order() {
    let mut relations = vec![Record::new("x".to_string(), "y".to_string(), "z".to_string())];
    let cities = vec![column("code", FieldType::Text)];
    let own = vec![column("id", FieldType::Int), column("code", FieldType::Text)];
    let keys = vec![fk("users", "id"), fk("cities", "code")];
    db().add_fks(&db().table("orders".to_string()), &own, &keys, &vec![users(), cities], &mut relations).unwrap();
    assert_eq!(
        triples(&relations),
        vec![
            ("x".to_string(), "y".to_string(), "z".to_string()),
            ("orders".to_string(), "users".to_string(), "id".to_string()),
            ("orders".to_string(), "cities".to_string(), "code".to_string()),
        ]
    );
}

#[test]
fn a_key_on_a_column_missing_from_one_side_is_recorded() {
    let mut relations: Vec<Record> = vec![];
    let own = vec![column("user_ref", FieldType::Int)];
    db().create_table("orders".to_string(), &own, &vec![fk("users", "id")], &vec![users()], &mut relations).unwrap();
    assert_eq!(relations.len(), 1);
}

#[test]
fn table_without_keys_leaves_the_log() {
    let mut relations: Vec<Record> = vec![];
    let created = db().create_table("plain".to_string(), &users(), &vec![], &vec![], &mut relations).unwrap();
    assert_eq!(created.table.table_name, "plain");
    assert_eq!(created.rows_text, "id,name\n");
    let schema = decode_schema(&created.info).unwrap();
    let names: Vec<&str> = schema.iter().map(|f| f.field_name.as_str()).collect();
    assert_eq!(names, vec!["id", "name"]);
    assert_eq!(schema[1].field.field_type, FieldType::Text);
    assert!(relations.is_empty());
    assert_eq!(relations_text(&relations).unwrap(), "from_table,to_table,field\n");
}

#[test]
fn relations_log_reads_back() {
    let text = "from_table,to_table,field\norders,users,id\nitems,orders,id\n";
    let rels = read_relations_data(text).unwrap();
    assert_eq!(
        triples(&rels),
        vec![
            ("orders".to_string(), "users".to_string(), "id".to_string()),
            ("items".to_string(), "orders".to_string(), "id".to_string()),
        ]
    );
    assert_eq!(relations_text(&rels).unwrap(), text);
}

#[test]
fn malformed_relations_log_fails() {
    assert!(matches!(read_relations_data(""), Err(HandlerError::ServiceErrors(ServiceError::MalformedTable))));
    assert!(matches!(
        read_relations_data("a,b\nx,y\n"),
        Err(HandlerError::ServiceErrors(ServiceError::MalformedTable))
    ));
}
