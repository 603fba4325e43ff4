use vstd::prelude::*;

use crate::field_type::FieldType;

verus! {

/// The definition of a column: its type and its flags. The key flags are
/// advisory: nothing enforces them.
#[derive(Clone, Copy, Debug, PartialEq, Eq, Structural)]
pub struct Field {
    pub field_type: FieldType,
    pub is_null: bool,
    pub is_pk: bool,
    pub is_fk: bool,
}

impl Field {
    pub fn is_null(&self) -> (r: bool)
        ensures
            r == self.is_null,
    {
        self.is_null
    }
}

/// One entry of a schema: a named column definition.
#[derive(Clone, Debug)]
pub struct FieldInfo {
    pub field: Field,
    pub field_name: String,
}

/// The mathematical value of a schema entry.
pub struct ColumnSpec {
    pub name: Seq<char>,
    pub field: Field,
}

impl View for FieldInfo {
    type V = ColumnSpec;

    open spec fn view(&self) -> ColumnSpec {
        ColumnSpec { name: self.field_name@, field: self.field }
    }
}

impl DeepView for FieldInfo {
    type V = ColumnSpec;

    open spec fn deep_view(&self) -> ColumnSpec {
        self@
    }
}

/// The names of a schema's columns, in order.
pub open spec fn column_names(schema: Seq<ColumnSpec>) -> Seq<Seq<char>> {
    schema.map_values(|c: ColumnSpec| c.name)
}

/// A foreign key asked for when a table is created: the column of the same
/// name in the target table.
#[derive(Debug)]
pub struct ForeignKey {
    pub to_table_name: String,
    pub to_field_name: String,
}

impl ForeignKey {
    pub fn new(to_table_name: String, to_field_name: String) -> (r: ForeignKey)
        ensures
            r.to_table_name@ == to_table_name@,
            r.to_field_name@ == to_field_name@,
    {
        ForeignKey { to_table_name, to_field_name }
    }
}

/// The names of the columns of a schema, in schema order.
pub fn names_of(schema: &Vec<FieldInfo>) -> (r: Vec<String>)
    ensures
        r.deep_view() == column_names(schema.deep_view()),
{
    let mut out: Vec<String> = Vec::new();
    let mut i: usize = 0;
    while i < schema.len()
        invariant
            i <= schema@.len(),
            out@.len() == i,
            forall|k: int| 0 <= k < i ==> (#[trigger] out@[k])@ == schema@[k].field_name@,
        decreases schema@.len() - i,
    {
        out.push(schema[i].field_name.clone());
        i += 1;
    }
    assert(out.deep_view() =~= column_names(schema.deep_view()));
    out
}

} // verus!
