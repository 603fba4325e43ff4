use dbms_rust::field_type::FieldType;
use dbms_rust::write_data::validate_type;

fn name(s: &str) -> Option<FieldType> {
    FieldType::from_str(&s.to_string())
}

#[test]
fn type_names_parse() {
    assert_eq!(name("int"), Some(FieldType::Int));
    assert_eq!(name("float"), Some(FieldType::Float));
    assert_eq!(name("double"), Some(FieldType::Double));
    assert_eq!(name("text"), Some(FieldType::Text));
    assert_eq!(name("blob"), Some(FieldType::Blob));
    assert_eq!(name("varchar(255)"), Some(FieldType::Varchar(255)));
}

#[test]
fn type_names_ignore_case() {
    assert_eq!(name("INT"), Some(FieldType::Int));
    assert_eq!(name("Text"), Some(FieldType::Text));
    assert_eq!(name("VarChar(10)"), Some(FieldType::Varchar(10)));
}

#[test]
fn varchar_length_forms() {
    assert_eq!(name("varchar10"), Some(FieldType::Varchar(10)));
    assert_eq!(name("varchar((7))"), Some(FieldType::Varchar(7)));
    assert_eq!(name("varchar(+3)"), Some(FieldType::Varchar(3)));
    assert_eq!(name("varchar()"), None);
    assert_eq!(name("varchar(abc)"), None);
    assert_eq!(name("varchar(-1)"), None);
    assert_eq!(name("varchar(99999999999999999999999)"), None);
}

#[test]
fn unknown_type_names() {
    assert_eq!(name(""), None);
    assert_eq!(name("integer"), None);
    assert_eq!(name(" int"), None);
    assert_eq!(name("char(3)"), None);
}

#[test]
fn validate_type_answers() {
    assert!(validate_type("Double".to_string()));
    assert!(!validate_type("number".to_string()));
}

#[test]
fn integers_are_int() {
    assert_eq!(FieldType::convert_value_type_from_str("1"), FieldType::Int);
    assert_eq!(FieldType::convert_value_type_from_str("-42"), FieldType::Int);
    assert_eq!(FieldType::convert_value_type_from_str("+7"), FieldType::Int);
    assert_eq!(FieldType::convert_value_type_from_str("2147483647"), FieldType::Int);
    assert_eq!(FieldType::convert_value_type_from_str("-2147483648"), FieldType::Int);
}

#[test]
fn integers_out_of_range_read_as_float() {
    assert_eq!(FieldType::convert_value_type_from_str("2147483648"), FieldType::Float);
    assert_eq!(FieldType::convert_value_type_from_str("-2147483649"), FieldType::Float);
}

#[test]
fn floats_are_float() {
    for v in ["3.14", "1.", ".5", "1e5", "1E-3", "-2.5e+10", "inf", "-Infinity", "NaN", "+nan"] {
        assert_eq!(FieldType::convert_value_type_from_str(v), FieldType::Float, "{}", v);
        assert!(v.parse::<f32>().is_ok() && v.parse::<f64>().is_ok(), "{}", v);
    }
}

#[test]
fn other_texts_are_text() {
    for v in ["abc", "", ".", "+", "-", "e5", "1e", "1.2.3", " 1", "1 ", "infinit", "0x10", "VARCHAR(5)", "BLOB"] {
        assert_eq!(FieldType::convert_value_type_from_str(v), FieldType::Text, "{}", v);
        assert!(v.parse::<i32>().is_err() && v.parse::<f32>().is_err(), "{}", v);
    }
}
