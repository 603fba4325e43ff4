use vstd::prelude::*;

use crate::field_type::FieldType;
use crate::text::{decimal, decimal_text, joined};

verus! {

/// The failures of the table operations.
#[derive(Debug)]
pub enum ServiceError {
    FileNotFound,
    CreateFileError(String),
    TypeDoesntMatch,
    ErrorAddingToTheFile,
    TooManyArgs,
    RecordDoesntExist,
    RowDoesntExist,
    /// A column of the schema has no value in the record to insert.
    MissingColumn(String),
    /// The value given for a column is not of the column's type.
    ValueTypeMismatch { column: String, expected: FieldType, value: String },
    /// The column named in a request is not in the schema.
    ColumnNotFound(String),
    /// A foreign key joins two columns of different types.
    ForeignKeyMismatch { field: String, target_table: String },
    /// The bytes of a schema side-car are not an encoded schema.
    SchemaDecodeError,
    /// A CSV artifact could not be read or written.
    MalformedTable,
    /// The operation is not offered by this store.
    NotSupported,
}

/// A failure with the place where it was raised.
#[derive(Debug)]
pub struct OperationFailure {
    pub path: String,
    pub line: usize,
    pub msg: String,
}

/// A failure tied to a record.
#[derive(Debug)]
pub struct TableFailure {
    pub record: String,
    pub msg: String,
}

/// The error that the operations of the store return.
#[derive(Debug)]
pub enum HandlerError {
    TableError(TableFailure),
    OperationError(OperationFailure),
    ServiceErrors(ServiceError),
}

pub open spec fn service_message(e: ServiceError) -> Seq<char> {
    match e {
        ServiceError::FileNotFound => "File or directory not found"@,
        ServiceError::CreateFileError(s) => "Failed to create file: "@ + s@,
        ServiceError::TypeDoesntMatch => "Type of field value doesn't match with type of the column."@,
        ServiceError::ErrorAddingToTheFile => "Error while adding record to the file."@,
        ServiceError::TooManyArgs => "Too many arguments were given."@,
        ServiceError::RecordDoesntExist => "Record in this table doesn't exist."@,
        ServiceError::RowDoesntExist => "This row doesn't seem to be exist in the table."@,
        ServiceError::MissingColumn(c) => "Required column is missing: "@ + c@,
        ServiceError::ValueTypeMismatch { column, value, .. } => "Value '"@ + value@
            + "' doesn't match the type of column "@ + column@,
        ServiceError::ColumnNotFound(c) => "Column doesn't exist: "@ + c@,
        ServiceError::ForeignKeyMismatch { field, target_table } =>
            "Field types don't match for foreign key from '"@ + field@ + "' to '"@ + target_table@
            + "'"@,
        ServiceError::SchemaDecodeError => "Table schema can't be decoded."@,
        ServiceError::MalformedTable => "Table data can't be read or written as CSV."@,
        ServiceError::NotSupported => "This operation is not supported."@,
    }
}

impl ServiceError {
    /// The text that describes the failure.
    pub fn message(&self) -> (r: String)
        ensures
            r@ == service_message(*self),
    {
        match self {
            ServiceError::FileNotFound => "File or directory not found".to_string(),
            ServiceError::CreateFileError(s) => joined("Failed to create file: ", s.as_str()),
            ServiceError::TypeDoesntMatch => "Type of field value doesn't match with type of the column.".to_string(),
            ServiceError::ErrorAddingToTheFile => "Error while adding record to the file.".to_string(),
            ServiceError::TooManyArgs => "Too many arguments were given.".to_string(),
            ServiceError::RecordDoesntExist => "Record in this table doesn't exist.".to_string(),
            ServiceError::RowDoesntExist => "This row doesn't seem to be exist in the table.".to_string(),
            ServiceError::MissingColumn(c) => joined("Required column is missing: ", c.as_str()),
            ServiceError::ValueTypeMismatch { column, value, .. } => {
                let mut r = joined("Value '", value.as_str());
                r.append("' doesn't match the type of column ");
                r.append(column.as_str());
                r
            },
            ServiceError::ColumnNotFound(c) => joined("Column doesn't exist: ", c.as_str()),
            ServiceError::ForeignKeyMismatch { field, target_table } => {
                let mut r = joined("Field types don't match for foreign key from '", field.as_str());
                r.append("' to '");
                r.append(target_table.as_str());
                r.append("'");
                r
            },
            ServiceError::SchemaDecodeError => "Table schema can't be decoded.".to_string(),
            ServiceError::MalformedTable => "Table data can't be read or written as CSV.".to_string(),
            ServiceError::NotSupported => "This operation is not supported.".to_string(),
        }
    }
}

/// `path:line.` then the message on a line of its own.
pub open spec fn located_text(path: Seq<char>, line: usize, msg: Seq<char>) -> Seq<char> {
    path + ":"@ + decimal_text(line as nat) + ".\n"@ + msg
}

/// The place, then `Message:` and the message, each on a line of its own.
pub open spec fn located_message(path: Seq<char>, line: usize, msg: Seq<char>) -> Seq<char> {
    "File "@ + path + ":"@ + decimal_text(line as nat) + ".\nMessage:\n"@ + msg
}

pub fn located(path: &String, line: usize, msg: &String) -> (r: String)
    ensures
        r@ == located_text(path@, line, msg@),
{
    let mut r = joined(path.as_str(), ":");
    let d = decimal(line);
    r.append(d.as_str());
    r.append(".\n");
    r.append(msg.as_str());
    r
}

pub fn located_full(path: &String, line: usize, msg: &String) -> (r: String)
    ensures
        r@ == located_message(path@, line, msg@),
{
    let mut r = joined("File ", path.as_str());
    r.append(":");
    let d = decimal(line);
    r.append(d.as_str());
    r.append(".\nMessage:\n");
    r.append(msg.as_str());
    r
}

impl OperationFailure {
    /// `path:line.` then the message.
    pub fn pretty(self) -> (r: String)
        ensures
            r@ == located_text(self.path@, self.line, self.msg@),
    {
        located(&self.path, self.line, &self.msg)
    }

    /// The full description: `File path:line.`, then the message.
    pub fn message(&self) -> (r: String)
        ensures
            r@ == located_message(self.path@, self.line, self.msg@),
    {
        located_full(&self.path, self.line, &self.msg)
    }
}

impl TableFailure {
    /// The record, then the message.
    pub fn pretty(self) -> (r: String)
        ensures
            r@ == self.record@ + ".\n"@ + self.msg@,
    {
        let mut r = joined(self.record.as_str(), ".\n");
        r.append(self.msg.as_str());
        r
    }

    /// The full description: where it occurred, then the message.
    pub fn message(&self) -> (r: String)
        ensures
            r@ == "Where error occurred :"@ + self.record@ + ".\nMessage:\n"@ + self.msg@,
    {
        let mut r = joined("Where error occurred :", self.record.as_str());
        r.append(".\nMessage:\n");
        r.append(self.msg.as_str());
        r
    }
}

impl HandlerError {
    /// The text that describes the failure.
    pub fn message(&self) -> (r: String)
        ensures
            match self {
                HandlerError::TableError(f) => r@ == "Where error occurred :"@ + f.record@
                    + ".\nMessage:\n"@ + f.msg@,
                HandlerError::OperationError(f) => r@ == located_message(f.path@, f.line, f.msg@),
                HandlerError::ServiceErrors(e) => r@ == service_message(*e),
            },
    {
        match self {
            HandlerError::TableError(f) => f.message(),
            HandlerError::OperationError(f) => f.message(),
            HandlerError::ServiceErrors(e) => e.message(),
        }
    }
}

} // verus!
