use vstd::prelude::*;

verus! {

/// One row of the relations log: a foreign key from a table to the column
/// of a target table.
#[derive(Debug)]
pub struct Record {
    pub from_table: String,
    pub to_table: String,
    pub field: String,
}

/// The mathematical value of a relations-log row.
pub struct Relation {
    pub from_table: Seq<char>,
    pub to_table: Seq<char>,
    pub field: Seq<char>,
}

impl View for Record {
    type V = Relation;

    open spec fn view(&self) -> Relation {
        Relation { from_table: self.from_table@, to_table: self.to_table@, field: self.field@ }
    }
}

impl DeepView for Record {
    type V = Relation;

    open spec fn deep_view(&self) -> Relation {
        self@
    }
}

impl Record {
    pub fn new(from_table: String, to_table: String, field: String) -> (r: Record)
        ensures
            r@ == (Relation { from_table: from_table@, to_table: to_table@, field: field@ }),
    {
        Record { from_table, to_table, field }
    }

    /// A copy of the row.
    pub fn duplicate(&self) -> (r: Record)
        ensures
            r@ == self@,
    {
        Record {
            from_table: self.from_table.clone(),
            to_table: self.to_table.clone(),
            field: self.field.clone(),
        }
    }
}

} // verus!
