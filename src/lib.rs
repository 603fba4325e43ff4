//! A flat-file table store: typed schemas with a binary side-car encoding,
//! CSV-backed rows with type-checked insertion, update and deletion, and a
//! relations log of foreign keys shared by the tables of a database.

pub mod text;
pub mod field_type;
pub mod field_model;
pub mod record_model;
pub mod errors;
pub mod asserts;
pub mod column_values;
pub mod tb_object;
pub mod db_object;
pub mod csv_store;
pub mod binary_storage;
pub mod write_data;
