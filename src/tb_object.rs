use vstd::prelude::*;
use vstd::string::*;

use crate::column_values::ColumnValues;
use crate::errors::{HandlerError, ServiceError};
use crate::field_model::{column_names, names_of, ColumnSpec, FieldInfo};
use crate::field_type::{inferred_type, FieldType};
use crate::record_model::{Record, Relation};
use crate::text::{joined, same_text};

verus! {

broadcast use ColumnValues::lemma_keys;

/// A handle on a table: the names that locate its artifacts. It caches no
/// data; every operation is handed the table's schema and rows.
#[derive(Clone, Debug)]
pub struct TableObject {
    pub db_name: String,
    pub table_name: String,
    pub db_path: String,
}

// ---------------------------------------------------------------------------
// The rules of the table operations
// ---------------------------------------------------------------------------

/// The first place of `name` among `names`, or -1 when it is not there.
pub open spec fn position_of(names: Seq<Seq<char>>, name: Seq<char>) -> int
    decreases names.len(),
{
    if names.len() == 0 {
        -1
    } else if names[0] == name {
        0
    } else {
        let p = position_of(names.drop_first(), name);
        if p < 0 {
            -1
        } else {
            p + 1
        }
    }
}

pub proof fn lemma_position_of(names: Seq<Seq<char>>, name: Seq<char>)
    ensures
        position_of(names, name) >= -1,
        position_of(names, name) == -1 <==> !names.contains(name),
        position_of(names, name) >= 0 ==> {
            let p = position_of(names, name);
            &&& p < names.len()
            &&& names[p] == name
            &&& forall|j: int| 0 <= j < p ==> names[j] != name
        },
    decreases names.len(),
{
    if names.len() > 0 && names[0] != name {
        let rest = names.drop_first();
        lemma_position_of(rest, name);
        if names.contains(name) {
            let i = choose|i: int| 0 <= i < names.len() && names[i] == name;
            assert(rest[i - 1] == name);
        }
        if rest.contains(name) {
            let i = choose|i: int| 0 <= i < rest.len() && rest[i] == name;
            assert(names[i + 1] == name);
        }
        if position_of(rest, name) >= 0 {
            let p = position_of(rest, name);
            assert forall|j: int| 0 <= j < p + 1 implies names[j] != name by {
                if j > 0 {
                    assert(names[j] == rest[j - 1]);
                }
            }
        }
    }
    if names.len() > 0 && names[0] == name {
        assert(names.contains(name));
    }
}

/// A row matches a set of conditions when there is at least one condition and,
/// for each, the row holds the given value in the named column.
pub open spec fn row_matches(
    names: Seq<Seq<char>>,
    row: Seq<Seq<char>>,
    conditions: Map<Seq<char>, Seq<char>>,
) -> bool {
    &&& exists|k: Seq<char>| conditions.contains_key(k)
    &&& forall|k: Seq<char>| #[trigger]
        conditions.contains_key(k) ==> {
            let p = position_of(names, k);
            0 <= p < row.len() && row[p] == conditions[k]
        }
}

/// The row with each changed column holding its new value.
pub open spec fn updated_row(
    names: Seq<Seq<char>>,
    row: Seq<Seq<char>>,
    changes: Map<Seq<char>, Seq<char>>,
) -> Seq<Seq<char>> {
    Seq::new(
        row.len(),
        |i: int|
            if i < names.len() && changes.contains_key(names[i]) {
                changes[names[i]]
            } else {
                row[i]
            },
    )
}

/// Each new value reads as the same type as the value that it replaces.
pub open spec fn change_fits(
    names: Seq<Seq<char>>,
    row: Seq<Seq<char>>,
    changes: Map<Seq<char>, Seq<char>>,
) -> bool {
    forall|i: int|
        0 <= i < row.len() && i < names.len() && #[trigger] changes.contains_key(names[i])
            ==> inferred_type(changes[names[i]]) == inferred_type(row[i])
}

/// Every row that matches can take the changes.
pub open spec fn update_allowed(
    names: Seq<Seq<char>>,
    rows: Seq<Seq<Seq<char>>>,
    conditions: Map<Seq<char>, Seq<char>>,
    changes: Map<Seq<char>, Seq<char>>,
) -> bool {
    forall|i: int|
        0 <= i < rows.len() && #[trigger] row_matches(names, rows[i], conditions) ==> change_fits(
            names,
            rows[i],
            changes,
        )
}

/// The rows after an update: the matching rows changed, the others as they were.
pub open spec fn rows_after_update(
    names: Seq<Seq<char>>,
    rows: Seq<Seq<Seq<char>>>,
    conditions: Map<Seq<char>, Seq<char>>,
    changes: Map<Seq<char>, Seq<char>>,
) -> Seq<Seq<Seq<char>>> {
    Seq::new(
        rows.len(),
        |i: int|
            if row_matches(names, rows[i], conditions) {
                updated_row(names, rows[i], changes)
            } else {
                rows[i]
            },
    )
}

/// The rows that a deletion keeps: those that do not match.
pub open spec fn rows_after_delete(
    names: Seq<Seq<char>>,
    rows: Seq<Seq<Seq<char>>>,
    conditions: Map<Seq<char>, Seq<char>>,
) -> Seq<Seq<Seq<char>>> {
    rows.filter(|row: Seq<Seq<char>>| !row_matches(names, row, conditions))
}

/// A column of type `t` takes the value `v`: the value reads as `t`, or `t`
/// is `Varchar(n)` and the value is a text of at most `n` characters.
pub open spec fn value_accepted(t: FieldType, v: Seq<char>) -> bool {
    ||| inferred_type(v) == t
    ||| (t matches FieldType::Varchar(n) && inferred_type(v) == FieldType::Text && v.len() <= n)
}

/// The record has a value that column `i` of the schema takes.
pub open spec fn value_fits(schema: Seq<ColumnSpec>, record: Map<Seq<char>, Seq<char>>, i: int) -> bool {
    &&& record.contains_key(schema[i].name)
    &&& value_accepted(schema[i].field.field_type, record[schema[i].name])
}

pub open spec fn record_fits(schema: Seq<ColumnSpec>, record: Map<Seq<char>, Seq<char>>) -> bool {
    forall|i: int| 0 <= i < schema.len() ==> #[trigger] value_fits(schema, record, i)
}

/// The row that a record makes: its values in schema order.
pub open spec fn record_row(schema: Seq<ColumnSpec>, record: Map<Seq<char>, Seq<char>>) -> Seq<
    Seq<char>,
> {
    Seq::new(schema.len(), |i: int| record[schema[i].name])
}

/// The error for column `i`, the first that the record does not fill.
pub open spec fn insert_error(
    schema: Seq<ColumnSpec>,
    record: Map<Seq<char>, Seq<char>>,
    i: int,
    e: HandlerError,
) -> bool {
    let name = schema[i].name;
    if !record.contains_key(name) {
        e matches HandlerError::ServiceErrors(ServiceError::MissingColumn(c)) && c@ == name
    } else {
        &&& e matches HandlerError::ServiceErrors(
            ServiceError::ValueTypeMismatch { column, expected, value },
        )
        &&& column@ == name
        &&& expected == schema[i].field.field_type
        &&& value@ == record[name]
    }
}

/// A row without the value at place `p`; a row too short to have one is kept.
pub open spec fn row_without(row: Seq<Seq<char>>, p: int) -> Seq<Seq<char>> {
    if 0 <= p < row.len() {
        row.remove(p)
    } else {
        row
    }
}

pub open spec fn rows_without_column(rows: Seq<Seq<Seq<char>>>, p: int) -> Seq<Seq<Seq<char>>> {
    rows.map_values(|row: Seq<Seq<char>>| row_without(row, p))
}

/// The relation is a foreign key on the column of the table, from or to it.
pub open spec fn refers_to(rel: Relation, table: Seq<char>, column: Seq<char>) -> bool {
    (rel.from_table == table || rel.to_table == table) && rel.field == column
}

pub open spec fn relations_without(
    relations: Seq<Relation>,
    table: Seq<char>,
    column: Seq<char>,
) -> Seq<Relation> {
    relations.filter(|rel: Relation| !refers_to(rel, table, column))
}

/// The first row that holds `value` in some column.
pub open spec fn is_first_holding(rows: Seq<Seq<Seq<char>>>, value: Seq<char>, i: int) -> bool {
    &&& 0 <= i < rows.len()
    &&& rows[i].contains(value)
    &&& forall|j: int| 0 <= j < i ==> !(#[trigger] rows[j]).contains(value)
}

/// An update changes exactly the rows that match every condition, each to
/// the row with the changes applied, and leaves every other row as it was;
/// when no row matches, the rows are left as they were.
pub proof fn lemma_update_touches_matching_rows(
    names: Seq<Seq<char>>,
    rows: Seq<Seq<Seq<char>>>,
    conditions: Map<Seq<char>, Seq<char>>,
    changes: Map<Seq<char>, Seq<char>>,
)
    ensures
        ({
            let after = rows_after_update(names, rows, conditions, changes);
            &&& after.len() == rows.len()
            &&& forall|i: int|
                0 <= i < rows.len() ==> #[trigger] after[i] == if row_matches(
                    names,
                    rows[i],
                    conditions,
                ) {
                    updated_row(names, rows[i], changes)
                } else {
                    rows[i]
                }
            &&& (forall|i: int| 0 <= i < rows.len() ==> !#[trigger] row_matches(names, rows[i], conditions))
                ==> after == rows
        }),
{
    let after = rows_after_update(names, rows, conditions, changes);
    if forall|i: int| 0 <= i < rows.len() ==> !#[trigger] row_matches(names, rows[i], conditions) {
        assert(after =~= rows);
    }
}

/// After a column is deleted from a table whose column names are distinct
/// and whose rows have one value per column: the schema no longer has the
/// column, every row has exactly one value fewer, the one at the column's
/// former place, and no relation on the column of the table remains.
pub proof fn lemma_column_delete_cascades(
    schema: Seq<ColumnSpec>,
    rows: Seq<Seq<Seq<char>>>,
    relations: Seq<Relation>,
    table: Seq<char>,
    column: Seq<char>,
)
    requires
        column_names(schema).no_duplicates(),
        column_names(schema).contains(column),
        forall|i: int| 0 <= i < rows.len() ==> (#[trigger] rows[i]).len() == schema.len(),
    ensures
        ({
            let p = position_of(column_names(schema), column);
            let kept = relations_without(relations, table, column);
            &&& 0 <= p < schema.len()
            &&& !column_names(schema.remove(p)).contains(column)
            &&& rows_without_column(rows, p).len() == rows.len()
            &&& forall|i: int|
                0 <= i < rows.len() ==> {
                    &&& (#[trigger] rows_without_column(rows, p)[i]).len() == rows[i].len() - 1
                    &&& rows_without_column(rows, p)[i] == rows[i].remove(p)
                }
            &&& forall|i: int| 0 <= i < kept.len() ==> !refers_to(#[trigger] kept[i], table, column)
        }),
{
    let names = column_names(schema);
    lemma_position_of(names, column);
    let p = position_of(names, column);
    let after = column_names(schema.remove(p));
    assert(after =~= names.remove(p));
    if after.contains(column) {
        let j = choose|j: int| 0 <= j < after.len() && after[j] == column;
        if j < p {
            assert(names[j] == column);
        } else {
            assert(names[j + 1] == column);
            assert(names[p] == column);
        }
    }
    let keep = |rel: Relation| !refers_to(rel, table, column);
    assert forall|i: int| 0 <= i < relations_without(relations, table, column).len() implies !refers_to(
        #[trigger] relations_without(relations, table, column)[i],
        table,
        column,
    ) by {
        relations.lemma_filter_pred(keep, i);
    }
}

// ---------------------------------------------------------------------------
// Helpers
// ---------------------------------------------------------------------------

/// A copy of a row.
pub fn copy_row(row: &Vec<String>) -> (r: Vec<String>)
    ensures
        r.deep_view() == row.deep_view(),
{
    let mut out: Vec<String> = Vec::new();
    let mut i: usize = 0;
    while i < row.len()
        invariant
            i <= row@.len(),
            out@.len() == i,
            forall|j: int| 0 <= j < i ==> (#[trigger] out@[j])@ == row@[j]@,
        decreases row@.len() - i,
    {
        out.push(row[i].clone());
        i += 1;
    }
    assert(out.deep_view() =~= row.deep_view());
    out
}

/// The place of the named column in the schema, if it is there.
pub fn find_column(schema: &Vec<FieldInfo>, name: &str) -> (r: Option<usize>)
    ensures
        match r {
            Some(i) => i as int == position_of(column_names(schema.deep_view()), name@),
            None => position_of(column_names(schema.deep_view()), name@) == -1,
        },
{
    let ghost names = column_names(schema.deep_view());
    let mut i: usize = 0;
    while i < schema.len()
        invariant
            i <= schema@.len(),
            names == column_names(schema.deep_view()),
            forall|j: int| 0 <= j < i ==> names[j] != name@,
        decreases schema@.len() - i,
    {
        if same_text(schema[i].field_name.as_str(), name) {
            assert(names[i as int] == name@);
            assert(names.contains(name@));
            proof {
                lemma_position_of(names, name@);
                let p = position_of(names, name@);
                if p < i {
                    assert(names[p] != name@);
                }
                if p > i {
                    assert(names[i as int] != name@);
                }
            }
            return Some(i);
        }
        i += 1;
    }
    proof {
        lemma_position_of(names, name@);
    }
    assert(!names.contains(name@));
    None
}

/// Whether the row matches every condition.
pub fn matches_row(schema: &Vec<FieldInfo>, row: &Vec<String>, conditions: &ColumnValues) -> (r:
    bool)
    ensures
        r == row_matches(column_names(schema.deep_view()), row.deep_view(), conditions@),
{
    let ghost names = column_names(schema.deep_view());
    let n = conditions.len();
    if n == 0 {
        return false;
    }
    assert(conditions@.contains_key(conditions.key_at(0)));
    let mut i: usize = 0;
    while i < n
        invariant
            n == conditions.count(),
            i <= n,
            names == column_names(schema.deep_view()),
            forall|j: int|
                0 <= j < i ==> {
                    let k = #[trigger] conditions.key_at(j);
                    let p = position_of(names, k);
                    0 <= p < row.deep_view().len() && row.deep_view()[p] == conditions@[k]
                },
        decreases n - i,
    {
        let (column, value) = conditions.column_at(i);
        match find_column(schema, column.as_str()) {
            None => {
                return false;
            },
            Some(p) => {
                if p >= row.len() {
                    return false;
                }
                if !same_text(row[p].as_str(), value.as_str()) {
                    return false;
                }
            },
        }
        i += 1;
    }
    assert forall|k: Seq<char>| #[trigger] conditions@.contains_key(k) implies {
        let p = position_of(names, k);
        0 <= p < row.deep_view().len() && row.deep_view()[p] == conditions@[k]
    } by {
        let j = choose|j: int| 0 <= j < conditions.count() && #[trigger] conditions.key_at(j) == k;
    }
    true
}

/// The row with the changes applied, or `None` when a new value does not read
/// as the type of the value that it replaces.
fn update_row(schema: &Vec<FieldInfo>, row: &Vec<String>, changes: &ColumnValues) -> (r: Option<
    Vec<String>,
>)
    ensures
        ({
            let names = column_names(schema.deep_view());
            match r {
                Some(u) => change_fits(names, row.deep_view(), changes@) && u.deep_view()
                    == updated_row(names, row.deep_view(), changes@),
                None => !change_fits(names, row.deep_view(), changes@),
            }
        }),
{
    let ghost names = column_names(schema.deep_view());
    let ghost old_row = row.deep_view();
    let mut out: Vec<String> = Vec::new();
    let mut i: usize = 0;
    while i < row.len()
        invariant
            i <= row@.len(),
            names == column_names(schema.deep_view()),
            old_row == row.deep_view(),
            out@.len() == i,
            forall|j: int|
                0 <= j < i ==> (#[trigger] out@[j])@ == updated_row(names, old_row, changes@)[j],
            forall|j: int|
                0 <= j < i && j < names.len() && #[trigger] changes@.contains_key(names[j])
                    ==> inferred_type(changes@[names[j]]) == inferred_type(old_row[j]),
        decreases row@.len() - i,
    {
        if i < schema.len() {
            assert(names[i as int] == schema@[i as int].field_name@);
            match changes.get(schema[i].field_name.as_str()) {
                Some(v) => {
                    let new_type = FieldType::convert_value_type_from_str(v.as_str());
                    let old_type = FieldType::convert_value_type_from_str(row[i].as_str());
                    if new_type != old_type {
                        return None;
                    }
                    out.push(v.clone());
                },
                None => {
                    out.push(row[i].clone());
                },
            }
        } else {
            out.push(row[i].clone());
        }
        i += 1;
    }
    assert(out.deep_view() =~= updated_row(names, old_row, changes@));
    Some(out)
}

/// Whether a column of type `t` takes the value `v`.
pub fn accepts(t: FieldType, v: &str) -> (r: bool)
    ensures
        r == value_accepted(t, v@),
{
    let read = FieldType::convert_value_type_from_str(v);
    if read == t {
        return true;
    }
    match t {
        FieldType::Varchar(n) => read == FieldType::Text && v.unicode_len() <= n,
        _ => false,
    }
}

impl TableObject {
    /// The location of the table's rows: `<db_path>/<db_name>/<table>.csv`.
    pub fn get_path(&self) -> (r: String)
        ensures
            r@ == self.db_path@ + "/"@ + self.db_name@ + "/"@ + self.table_name@ + ".csv"@,
    {
        let mut r = joined(self.db_path.as_str(), "/");
        r.append(self.db_name.as_str());
        r.append("/");
        r.append(self.table_name.as_str());
        r.append(".csv");
        r
    }

    /// The location of the table's schema: `<db_path>/<db_name>/<table>_info`.
    pub fn get_info_path(&self) -> (r: String)
        ensures
            r@ == self.db_path@ + "/"@ + self.db_name@ + "/"@ + self.table_name@ + "_info"@,
    {
        let mut r = joined(self.db_path.as_str(), "/");
        r.append(self.db_name.as_str());
        r.append("/");
        r.append(self.table_name.as_str());
        r.append("_info");
        r
    }

    /// The location of the database's relations log:
    /// `<db_path>/<db_name>/relations.csv`.
    pub fn get_relations_path(&self) -> (r: String)
        ensures
            r@ == self.db_path@ + "/"@ + self.db_name@ + "/relations.csv"@,
    {
        let mut r = joined(self.db_path.as_str(), "/");
        r.append(self.db_name.as_str());
        r.append("/relations.csv");
        r
    }

    /// The column names of a schema, in schema order.
    pub fn get_headers(&self, field_info: Vec<FieldInfo>) -> (r: Result<Vec<String>, HandlerError>)
        ensures
            r matches Ok(h) && h.deep_view() == column_names(field_info.deep_view()),
    {
        Ok(names_of(&field_info))
    }

    /// Adds the record as a row at the end of the table, its values in schema
    /// order. Each column of the schema must have a value in the record that
    /// the column takes (see `value_accepted`: a value of the column's type,
    /// or a text within a `Varchar` column's length); the first column that
    /// has none, or one it does not take, is reported and the rows are left as
    /// they were.
    pub fn add_record(
        &self,
        schema: &Vec<FieldInfo>,
        rows: &mut Vec<Vec<String>>,
        record: &ColumnValues,
    ) -> (r: Result<(), HandlerError>)
        ensures
            r is Ok <==> record_fits(schema.deep_view(), record@),
            match r {
                Ok(()) => final(rows).deep_view() == old(rows).deep_view().push(
                    record_row(schema.deep_view(), record@),
                ),
                Err(e) => {
                    &&& final(rows).deep_view() == old(rows).deep_view()
                    &&& exists|i: int|
                        0 <= i < schema@.len() && (forall|j: int|
                            0 <= j < i ==> #[trigger] value_fits(schema.deep_view(), record@, j))
                            && !value_fits(schema.deep_view(), record@, i) && insert_error(
                            schema.deep_view(),
                            record@,
                            i,
                            e,
                        )
                },
            },
    {
        let ghost s = schema.deep_view();
        let mut line: Vec<String> = Vec::new();
        let mut i: usize = 0;
        while i < schema.len()
            invariant
                i <= schema@.len(),
                s == schema.deep_view(),
                line@.len() == i,
                forall|j: int| 0 <= j < i ==> #[trigger] value_fits(s, record@, j),
                forall|j: int| 0 <= j < i ==> (#[trigger] line@[j])@ == record_row(s, record@)[j],
            decreases schema@.len() - i,
        {
            let column = &schema[i].field_name;
            match record.get(column.as_str()) {
                None => {
                    let e = HandlerError::ServiceErrors(ServiceError::MissingColumn(column.clone()));
                    assert(insert_error(s, record@, i as int, e));
                    assert(!value_fits(s, record@, i as int));
                    return Err(e);
                },
                Some(value) => {
                    let expected = schema[i].field.field_type;
                    if !accepts(expected, value.as_str()) {
                        let e = HandlerError::ServiceErrors(
                            ServiceError::ValueTypeMismatch {
                                column: column.clone(),
                                expected,
                                value: value.clone(),
                            },
                        );
                        assert(insert_error(s, record@, i as int, e));
                        assert(!value_fits(s, record@, i as int));
                        return Err(e);
                    }
                    line.push(value.clone());
                },
            }
            assert(value_fits(s, record@, i as int));
            i += 1;
        }
        assert(line.deep_view() =~= record_row(s, record@));
        rows.push(line);
        assert(rows.deep_view() =~= old(rows).deep_view().push(record_row(s, record@)));
        Ok(())
    }

    /// Changes the rows that match every condition in `where_`: each column
    /// named in `changes` takes its new value. The number of changes may not
    /// pass the number of columns; each new value must read as the same type
    /// as the value that it replaces. On failure no row is changed.
    pub fn edit_record(
        &self,
        schema: &Vec<FieldInfo>,
        rows: &mut Vec<Vec<String>>,
        where_: &ColumnValues,
        changes: &ColumnValues,
    ) -> (r: Result<(), HandlerError>)
        ensures
            changes@.len() > schema@.len() ==> (r matches Err(
                HandlerError::ServiceErrors(ServiceError::TooManyArgs),
            )),
            changes@.len() <= schema@.len() && !update_allowed(
                column_names(schema.deep_view()),
                old(rows).deep_view(),
                where_@,
                changes@,
            ) ==> (r matches Err(HandlerError::ServiceErrors(ServiceError::TypeDoesntMatch))),
            changes@.len() <= schema@.len() && update_allowed(
                column_names(schema.deep_view()),
                old(rows).deep_view(),
                where_@,
                changes@,
            ) ==> r is Ok,
            r is Ok ==> final(rows).deep_view() == rows_after_update(
                column_names(schema.deep_view()),
                old(rows).deep_view(),
                where_@,
                changes@,
            ),
            r is Err ==> final(rows).deep_view() == old(rows).deep_view(),
            (forall|i: int|
                0 <= i < old(rows)@.len() ==> !#[trigger] row_matches(
                    column_names(schema.deep_view()),
                    old(rows).deep_view()[i],
                    where_@,
                )) ==> final(rows).deep_view() == old(rows).deep_view(),
    {
        let ghost names = column_names(schema.deep_view());
        let ghost before = rows.deep_view();
        if changes.len() > schema.len() {
            return Err(HandlerError::ServiceErrors(ServiceError::TooManyArgs));
        }
        let mut out: Vec<Vec<String>> = Vec::new();
        let mut i: usize = 0;
        while i < rows.len()
            invariant
                i <= rows@.len(),
                changes@.len() <= schema@.len(),
                names == column_names(schema.deep_view()),
                before == rows.deep_view(),
                out@.len() == i,
                forall|j: int|
                    0 <= j < i ==> (#[trigger] out@[j]).deep_view() == rows_after_update(
                        names,
                        before,
                        where_@,
                        changes@,
                    )[j],
                forall|j: int|
                    0 <= j < i && #[trigger] row_matches(names, before[j], where_@) ==> change_fits(
                        names,
                        before[j],
                        changes@,
                    ),
            decreases rows@.len() - i,
        {
            assert(rows@[i as int].deep_view() == before[i as int]);
            if matches_row(schema, &rows[i], where_) {
                match update_row(schema, &rows[i], changes) {
                    Some(u) => out.push(u),
                    None => {
                        assert(row_matches(names, before[i as int], where_@));
                        assert(!update_allowed(names, before, where_@, changes@));
                        return Err(HandlerError::ServiceErrors(ServiceError::TypeDoesntMatch));
                    },
                }
            } else {
                out.push(copy_row(&rows[i]));
            }
            i += 1;
        }
        assert(out.deep_view() =~= rows_after_update(names, before, where_@, changes@));
        proof {
            if forall|j: int| 0 <= j < before.len() ==> !#[trigger] row_matches(names, before[j], where_@) {
                assert(rows_after_update(names, before, where_@, changes@) =~= before);
            }
        }
        *rows = out;
        Ok(())
    }

    /// Drops the rows that match every condition in `where_`; the others stay
    /// in their order.
    pub fn delete_record(
        &self,
        schema: &Vec<FieldInfo>,
        rows: &mut Vec<Vec<String>>,
        where_: &ColumnValues,
    ) -> (r: Result<(), HandlerError>)
        ensures
            r is Ok,
            final(rows).deep_view() == rows_after_delete(
                column_names(schema.deep_view()),
                old(rows).deep_view(),
                where_@,
            ),
    {
        let ghost names = column_names(schema.deep_view());
        let ghost before = rows.deep_view();
        let ghost keep = |row: Seq<Seq<char>>| !row_matches(names, row, where_@);
        let mut out: Vec<Vec<String>> = Vec::new();
        let mut i: usize = 0;
        while i < rows.len()
            invariant
                i <= rows@.len(),
                names == column_names(schema.deep_view()),
                before == rows.deep_view(),
                keep == (|row: Seq<Seq<char>>| !row_matches(names, row, where_@)),
                out.deep_view() == before.take(i as int).filter(keep),
            decreases rows@.len() - i,
        {
            assert(before.take(i + 1) =~= before.take(i as int).push(before[i as int]));
            proof {
                before.take(i as int).lemma_filter_push(before[i as int], keep);
            }
            assert(rows@[i as int].deep_view() == before[i as int]);
            if !matches_row(schema, &rows[i], where_) {
                let ghost prev = out.deep_view();
                out.push(copy_row(&rows[i]));
                assert(out.deep_view() =~= prev.push(before[i as int]));
            }
            i += 1;
        }
        assert(before.take(rows@.len() as int) =~= before);
        *rows = out;
        Ok(())
    }

    /// Drops from the relations log every foreign key on the column of this
    /// table, from it or to it.
    pub fn delete_fks(&self, relations: &mut Vec<Record>, row_name: &str)
        ensures
            final(relations).deep_view() == relations_without(
                old(relations).deep_view(),
                self.table_name@,
                row_name@,
            ),
    {
        let ghost before = relations.deep_view();
        let ghost keep = |rel: Relation| !refers_to(rel, self.table_name@, row_name@);
        let mut out: Vec<Record> = Vec::new();
        let mut i: usize = 0;
        while i < relations.len()
            invariant
                i <= relations@.len(),
                before == relations.deep_view(),
                keep == (|rel: Relation| !refers_to(rel, self.table_name@, row_name@)),
                out.deep_view() == before.take(i as int).filter(keep),
            decreases relations@.len() - i,
        {
            assert(before.take(i + 1) =~= before.take(i as int).push(before[i as int]));
            proof {
                before.take(i as int).lemma_filter_push(before[i as int], keep);
            }
            let rel = &relations[i];
            let on_table = same_text(rel.from_table.as_str(), self.table_name.as_str())
                || same_text(rel.to_table.as_str(), self.table_name.as_str());
            if !(on_table && same_text(rel.field.as_str(), row_name)) {
                let ghost prev = out.deep_view();
                out.push(rel.duplicate());
                assert(out.deep_view() =~= prev.push(before[i as int]));
            }
            i += 1;
        }
        assert(before.take(relations@.len() as int) =~= before);
        *relations = out;
    }

    /// Removes a column: from the schema, from every row, and, with every
    /// foreign key on it, from the relations log. A column that is not in the
    /// schema is reported and nothing is changed.
    pub fn delete_row(
        &self,
        schema: &mut Vec<FieldInfo>,
        rows: &mut Vec<Vec<String>>,
        relations: &mut Vec<Record>,
        row_name: &str,
    ) -> (r: Result<(), HandlerError>)
        ensures
            ({
                let p = position_of(column_names(old(schema).deep_view()), row_name@);
                &&& p < 0 ==> {
                    &&& (r matches Err(HandlerError::ServiceErrors(ServiceError::ColumnNotFound(c)))
                        && c@ == row_name@)
                    &&& final(schema).deep_view() == old(schema).deep_view()
                    &&& final(rows).deep_view() == old(rows).deep_view()
                    &&& final(relations).deep_view() == old(relations).deep_view()
                }
                &&& p >= 0 ==> {
                    &&& r is Ok
                    &&& final(schema).deep_view() == old(schema).deep_view().remove(p)
                    &&& final(rows).deep_view() == rows_without_column(old(rows).deep_view(), p)
                    &&& final(relations).deep_view() == relations_without(
                        old(relations).deep_view(),
                        self.table_name@,
                        row_name@,
                    )
                }
            }),
    {
        let p = match find_column(schema, row_name) {
            Some(p) => p,
            None => {
                return Err(
                    HandlerError::ServiceErrors(ServiceError::ColumnNotFound(row_name.to_string())),
                );
            },
        };
        proof {
            lemma_position_of(column_names(schema.deep_view()), row_name@);
        }
        let ghost before = rows.deep_view();
        let mut out: Vec<Vec<String>> = Vec::new();
        let mut i: usize = 0;
        while i < rows.len()
            invariant
                i <= rows@.len(),
                before == rows.deep_view(),
                out@.len() == i,
                forall|j: int|
                    0 <= j < i ==> (#[trigger] out@[j]).deep_view() == row_without(
                        before[j],
                        p as int,
                    ),
            decreases rows@.len() - i,
        {
            let mut row = copy_row(&rows[i]);
            assert(row.deep_view() == before[i as int]);
            if p < row.len() {
                let ghost prev = row.deep_view();
                row.remove(p);
                assert(row.deep_view() =~= prev.remove(p as int));
            }
            out.push(row);
            i += 1;
        }
        assert(out.deep_view() =~= rows_without_column(before, p as int));
        let ghost old_schema = schema.deep_view();
        schema.remove(p);
        assert(schema.deep_view() =~= old_schema.remove(p as int));
        *rows = out;
        self.delete_fks(relations, row_name);
        Ok(())
    }

    /// The first row that holds `value` in some column.
    pub fn find_record_by_name(&self, rows: &Vec<Vec<String>>, value: &str) -> (r: Option<
        Vec<String>,
    >)
        ensures
            match r {
                Some(row) => exists|i: int|
                    is_first_holding(rows.deep_view(), value@, i) && row.deep_view()
                        == rows.deep_view()[i],
                None => forall|i: int|
                    0 <= i < rows@.len() ==> !(#[trigger] rows.deep_view()[i]).contains(value@),
            },
    {
        let ghost all = rows.deep_view();
        let mut i: usize = 0;
        while i < rows.len()
            invariant
                i <= rows@.len(),
                all == rows.deep_view(),
                all.len() == rows@.len(),
                forall|j: int| 0 <= j < i ==> !(#[trigger] all[j]).contains(value@),
            decreases rows@.len() - i,
        {
            let row = &rows[i];
            assert(row.deep_view() == all[i as int]);
            let mut k: usize = 0;
            while k < row.len()
                invariant
                    i < all.len(),
                    all == rows.deep_view(),
                    forall|j: int| 0 <= j < i ==> !(#[trigger] all[j]).contains(value@),
                    k <= row@.len(),
                    row.deep_view() == all[i as int],
                    forall|m: int| 0 <= m < k ==> all[i as int][m] != value@,
                decreases row@.len() - k,
            {
                if same_text(row[k].as_str(), value) {
                    assert(all[i as int][k as int] == value@);
                    assert(all[i as int].contains(value@));
                    assert(is_first_holding(all, value@, i as int));
                    return Some(copy_row(row));
                }
                k += 1;
            }
            i += 1;
        }
        None
    }

    /// Deleting a whole table is not offered.
    pub fn delete_table(&self) -> (r: Result<(), HandlerError>)
        ensures
            r matches Err(HandlerError::ServiceErrors(ServiceError::NotSupported)),
    {
        Err(HandlerError::ServiceErrors(ServiceError::NotSupported))
    }
}

} // verus!
