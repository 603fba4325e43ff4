use vstd::prelude::*;

use crate::binary_storage::{encode_schema, schema_bytes};
use crate::csv_store::{table_text, table_text_of};
use crate::errors::{HandlerError, ServiceError};
use crate::field_model::{column_names, ColumnSpec, FieldInfo, ForeignKey};
use crate::record_model::{Record, Relation};
use crate::tb_object::{find_column, lemma_position_of, position_of, TableObject};

verus! {

/// A handle on a database: the folder `<path>/<name>` that holds its tables
/// and its relations log.
#[derive(Clone, Debug)]
pub struct DbObject {
    pub name: String,
    pub path: String,
}

/// The column named `field` has one type in the table's own schema and
/// another in the target's schema.
pub open spec fn key_type_clash(own: Seq<ColumnSpec>, target: Seq<ColumnSpec>, field: Seq<char>) -> bool {
    let p = position_of(column_names(own), field);
    let q = position_of(column_names(target), field);
    &&& p >= 0
    &&& q >= 0
    &&& own[p].field.field_type != target[q].field.field_type
}

/// The `i`-th foreign key joins columns of different types.
pub open spec fn clash_at(
    own: Seq<ColumnSpec>,
    targets: Seq<Seq<ColumnSpec>>,
    keys: Seq<ForeignKey>,
    i: int,
) -> bool {
    key_type_clash(own, targets[i], keys[i].to_field_name@)
}

pub open spec fn keys_agree(own: Seq<ColumnSpec>, targets: Seq<Seq<ColumnSpec>>, keys: Seq<ForeignKey>) -> bool {
    forall|i: int| 0 <= i < keys.len() ==> !#[trigger] clash_at(own, targets, keys, i)
}

/// The relations-log rows that the foreign keys of a table add, in order.
pub open spec fn new_relations(table: Seq<char>, keys: Seq<ForeignKey>) -> Seq<Relation> {
    Seq::new(
        keys.len(),
        |i: int|
            Relation {
                from_table: table,
                to_table: keys[i].to_table_name@,
                field: keys[i].to_field_name@,
            },
    )
}

/// The error reported for the `i`-th foreign key.
pub open spec fn key_error(keys: Seq<ForeignKey>, i: int, e: HandlerError) -> bool {
    &&& e matches HandlerError::ServiceErrors(
        ServiceError::ForeignKeyMismatch { field, target_table },
    )
    &&& field@ == keys[i].to_field_name@
    &&& target_table@ == keys[i].to_table_name@
}

/// The failure that foreign-key checking reports: the first key that clashes.
pub open spec fn first_clash_reported(
    own: Seq<ColumnSpec>,
    targets: Seq<Seq<ColumnSpec>>,
    keys: Seq<ForeignKey>,
    e: HandlerError,
) -> bool {
    exists|i: int|
        0 <= i < keys.len() && #[trigger] clash_at(own, targets, keys, i) && (forall|j: int|
            0 <= j < i ==> !#[trigger] clash_at(own, targets, keys, j)) && key_error(keys, i, e)
}

impl DbObject {
    /// The handle on the table `table_name` of this database.
    pub fn table(&self, table_name: String) -> (r: TableObject)
        ensures
            r.db_name@ == self.name@,
            r.db_path@ == self.path@,
            r.table_name@ == table_name@,
    {
        TableObject { db_name: self.name.clone(), table_name, db_path: self.path.clone() }
    }

    /// Checks the foreign keys of a table and records them in the relations
    /// log. `targets[i]` is the schema of the table that the `i`-th key
    /// names. Each key's column must have the same type in the table's own
    /// schema and in the target's, where both have it. The keys are recorded
    /// all together, or, at the first clash, none is.
    pub fn add_fks(
        &self,
        table_obj: &TableObject,
        own: &Vec<FieldInfo>,
        foreign_keys: &Vec<ForeignKey>,
        targets: &Vec<Vec<FieldInfo>>,
        relations: &mut Vec<Record>,
    ) -> (r: Result<(), HandlerError>)
        requires
            targets@.len() == foreign_keys@.len(),
        ensures
            r is Ok <==> keys_agree(own.deep_view(), targets.deep_view(), foreign_keys@),
            match r {
                Ok(()) => final(relations).deep_view() == old(relations).deep_view()
                    + new_relations(table_obj.table_name@, foreign_keys@),
                Err(e) => {
                    &&& final(relations).deep_view() == old(relations).deep_view()
                    &&& first_clash_reported(own.deep_view(), targets.deep_view(), foreign_keys@, e)
                },
            },
    {
        let ghost o = own.deep_view();
        let ghost ts = targets.deep_view();
        let ghost ks = foreign_keys@;
        let mut i: usize = 0;
        while i < foreign_keys.len()
            invariant
                i <= ks.len(),
                ks == foreign_keys@,
                o == own.deep_view(),
                ts == targets.deep_view(),
                targets@.len() == ks.len(),
                forall|j: int| 0 <= j < i ==> !#[trigger] clash_at(o, ts, ks, j),
            decreases ks.len() - i,
        {
            let key = &foreign_keys[i];
            let target = &targets[i];
            assert(target.deep_view() == ts[i as int]);
            let from = find_column(own, key.to_field_name.as_str());
            let to = find_column(target, key.to_field_name.as_str());
            proof {
                lemma_position_of(column_names(o), key.to_field_name@);
                lemma_position_of(column_names(ts[i as int]), key.to_field_name@);
            }
            if let (Some(p), Some(q)) = (from, to) {
                if own[p].field.field_type != target[q].field.field_type {
                    let e = HandlerError::ServiceErrors(
                        ServiceError::ForeignKeyMismatch {
                            field: key.to_field_name.clone(),
                            target_table: key.to_table_name.clone(),
                        },
                    );
                    assert(clash_at(o, ts, ks, i as int));
                    assert(key_error(ks, i as int, e));
                    return Err(e);
                }
            }
            assert(!clash_at(o, ts, ks, i as int));
            i += 1;
        }
        let ghost before = relations.deep_view();
        let mut k: usize = 0;
        while k < foreign_keys.len()
            invariant
                k <= ks.len(),
                ks == foreign_keys@,
                relations.deep_view() == before + new_relations(table_obj.table_name@, ks).take(
                    k as int,
                ),
            decreases ks.len() - k,
        {
            let key = &foreign_keys[k];
            let rec = Record::new(
                table_obj.table_name.clone(),
                key.to_table_name.clone(),
                key.to_field_name.clone(),
            );
            let ghost prev = relations.deep_view();
            relations.push(rec);
            assert(relations.deep_view() =~= prev.push(rec@));
            k += 1;
            assert(before + new_relations(table_obj.table_name@, ks).take(k as int) =~= prev.push(
                rec@,
            ));
        }
        assert(new_relations(table_obj.table_name@, ks).take(ks.len() as int) =~= new_relations(
            table_obj.table_name@,
            ks,
        ));
        Ok(())
    }

    /// Creates the table `table_name` with the given schema: gives its handle
    /// and the contents of its two artifacts (the rows file, a header of the
    /// column names in schema order and no rows; and the encoded schema), and
    /// checks and records its foreign keys (see `add_fks`). Nothing is
    /// recorded when it fails; the caller writes the artifacts once it has
    /// succeeded.
    pub fn create_table(
        &self,
        table_name: String,
        fields: &Vec<FieldInfo>,
        foreign_keys: &Vec<ForeignKey>,
        targets: &Vec<Vec<FieldInfo>>,
        relations: &mut Vec<Record>,
    ) -> (r: Result<NewTable, HandlerError>)
        requires
            targets@.len() == foreign_keys@.len(),
        ensures
            ({
                let text = table_text_of(fields.deep_view(), Seq::empty());
                let agree = keys_agree(fields.deep_view(), targets.deep_view(), foreign_keys@);
                &&& r is Ok <==> text is Some && agree
                &&& text is None ==> (r matches Err(
                    HandlerError::ServiceErrors(ServiceError::MalformedTable),
                ))
                &&& match r {
                    Ok(n) => {
                        &&& n.table.db_name@ == self.name@
                        &&& n.table.db_path@ == self.path@
                        &&& n.table.table_name@ == table_name@
                        &&& text == Some(n.rows_text@)
                        &&& n.info@ == schema_bytes(fields.deep_view())
                        &&& final(relations).deep_view() == old(relations).deep_view()
                            + new_relations(table_name@, foreign_keys@)
                    },
                    Err(e) => {
                        &&& final(relations).deep_view() == old(relations).deep_view()
                        &&& text is Some ==> first_clash_reported(
                            fields.deep_view(),
                            targets.deep_view(),
                            foreign_keys@,
                            e,
                        )
                    },
                }
            }),
    {
        let no_rows: Vec<Vec<String>> = Vec::new();
        assert(no_rows.deep_view() =~= Seq::<Seq<Seq<char>>>::empty());
        let rows_text = match table_text(fields, &no_rows) {
            Ok(t) => t,
            Err(e) => {
                return Err(e);
            },
        };
        let info = encode_schema(fields);
        let table = self.table(table_name);
        if foreign_keys.len() > 0 {
            match self.add_fks(&table, fields, foreign_keys, targets, relations) {
                Ok(()) => {},
                Err(e) => {
                    return Err(e);
                },
            }
        } else {
            assert(relations.deep_view() =~= relations.deep_view() + new_relations(
                table.table_name@,
                foreign_keys@,
            ));
        }
        Ok(NewTable { table, rows_text, info })
    }
}

/// A table just created: its handle, the text of its rows file and the bytes
/// of its schema file.
#[derive(Debug)]
pub struct NewTable {
    pub table: TableObject,
    pub rows_text: String,
    pub info: Vec<u8>,
}

} // verus!
