use vstd::prelude::*;

use crate::errors::{HandlerError, ServiceError};
use crate::field_model::{column_names, names_of, ColumnSpec, FieldInfo};
use crate::record_model::{Record, Relation};

verus! {

/// What `csv::Writer::write_record` writes for one record, or `None` when it
/// fails.
pub uninterp spec fn csv_line_of(fields: Seq<Seq<char>>) -> Option<Seq<char>>;

/// What a `csv::Reader` without a header row reads from a text: every record
/// in order, or `None` when a record is malformed.
pub uninterp spec fn csv_records_of(text: Seq<char>) -> Option<Seq<Seq<Seq<char>>>>;

/// Relies on `csv::Writer::write_record` into memory: the fields as one CSV
/// line, quoted where needed and ended by the record terminator.
#[verifier::external_body]
fn csv_line(fields: &Vec<String>) -> (r: Option<String>)
    ensures
        match r {
            Some(s) => csv_line_of(fields.deep_view()) == Some(s@),
            None => csv_line_of(fields.deep_view()) is None,
        },
{
    let mut writer = csv::Writer::from_writer(Vec::new());
    if writer.write_record(fields).is_err() {
        return None;
    }
    writer.into_inner().ok().and_then(|bytes| String::from_utf8(bytes).ok())
}

/// Relies on `csv::Reader::records`, with no header row taken apart: each
/// record of the text as its fields, or `None` at a malformed record.
#[verifier::external_body]
fn csv_records(text: &str) -> (r: Option<Vec<Vec<String>>>)
    ensures
        match r {
            Some(v) => csv_records_of(text@) == Some(v.deep_view()),
            None => csv_records_of(text@) is None,
        },
{
    let mut reader = csv::ReaderBuilder::new().has_headers(false).from_reader(text.as_bytes());
    let records: Result<Vec<csv::StringRecord>, csv::Error> = reader.records().collect();
    records.ok().map(|rs| rs.iter().map(|rec| rec.iter().map(|f| f.to_string()).collect()).collect())
}

/// The CSV text of rows: the line of each row, in order.
pub open spec fn lines_text(rows: Seq<Seq<Seq<char>>>) -> Option<Seq<char>>
    decreases rows.len(),
{
    if rows.len() == 0 {
        Some(Seq::empty())
    } else {
        match (lines_text(rows.drop_last()), csv_line_of(rows.last())) {
            (Some(a), Some(b)) => Some(a + b),
            _ => None,
        }
    }
}

/// The CSV text of a table: the header of column names, then the rows.
pub open spec fn table_text_of(schema: Seq<ColumnSpec>, rows: Seq<Seq<Seq<char>>>) -> Option<
    Seq<char>,
> {
    lines_text(seq![column_names(schema)] + rows)
}

pub open spec fn relations_header() -> Seq<Seq<char>> {
    seq!["from_table"@, "to_table"@, "field"@]
}

pub open spec fn relation_fields(rel: Relation) -> Seq<Seq<char>> {
    seq![rel.from_table, rel.to_table, rel.field]
}

/// The CSV text of the relations log: its header, then a line per relation.
pub open spec fn relations_text_of(relations: Seq<Relation>) -> Option<Seq<char>> {
    lines_text(seq![relations_header()] + relations.map_values(|rel: Relation| relation_fields(rel)))
}

/// The relation that a three-field record of the relations log holds.
pub open spec fn relation_of(fields: Seq<Seq<char>>) -> Relation {
    Relation { from_table: fields[0], to_table: fields[1], field: fields[2] }
}

/// Appends the CSV text of `rows[from..]` to `out`.
fn append_lines(out: &mut String, rows: &Vec<Vec<String>>, all: Ghost<Seq<Seq<Seq<char>>>>, offset: Ghost<int>) -> (r: bool)
    requires
        0 <= offset@,
        offset@ + rows@.len() == all@.len(),
        all@.skip(offset@) == rows.deep_view(),
        lines_text(all@.take(offset@)) == Some(old(out)@),
    ensures
        r ==> lines_text(all@) == Some(final(out)@),
        !r ==> lines_text(all@) is None,
{
    let mut i: usize = 0;
    while i < rows.len()
        invariant
            i <= rows@.len(),
            0 <= offset@,
            offset@ + rows@.len() == all@.len(),
            all@.skip(offset@) == rows.deep_view(),
            lines_text(all@.take(offset@ + i)) == Some(out@),
        decreases rows@.len() - i,
    {
        let ghost upto = all@.take(offset@ + i + 1);
        assert(upto.drop_last() =~= all@.take(offset@ + i));
        assert(upto.last() == rows.deep_view()[i as int]);
        assert(rows@[i as int].deep_view() == rows.deep_view()[i as int]);
        match csv_line(&rows[i]) {
            Some(line) => {
                out.append(line.as_str());
            },
            None => {
                proof {
                    lemma_lines_text_prefix(all@, offset@ + i + 1);
                }
                return false;
            },
        }
        i += 1;
    }
    assert(all@.take(offset@ + rows@.len()) =~= all@);
    true
}

/// A text that fails for a prefix of the rows fails for all of them.
proof fn lemma_lines_text_prefix(rows: Seq<Seq<Seq<char>>>, k: int)
    requires
        0 <= k <= rows.len(),
        lines_text(rows.take(k)) is None,
    ensures
        lines_text(rows) is None,
    decreases rows.len() - k,
{
    if k < rows.len() {
        assert(rows.take(k + 1).drop_last() =~= rows.take(k));
        lemma_lines_text_prefix(rows, k + 1);
    } else {
        assert(rows.take(k) =~= rows);
    }
}

/// The CSV text of a table's artifact: a header of the column names in
/// schema order, then the rows.
pub fn table_text(schema: &Vec<FieldInfo>, rows: &Vec<Vec<String>>) -> (r: Result<String, HandlerError>)
    ensures
        match r {
            Ok(t) => table_text_of(schema.deep_view(), rows.deep_view()) == Some(t@),
            Err(e) => table_text_of(schema.deep_view(), rows.deep_view()) is None && e matches HandlerError::ServiceErrors(ServiceError::MalformedTable),
        },
{
    let ghost all = seq![column_names(schema.deep_view())] + rows.deep_view();
    let header = names_of(schema);
    let mut out = String::new();
    assert(all.take(1).drop_last() =~= Seq::<Seq<Seq<char>>>::empty());
    assert(all.take(1).last() == header.deep_view());
    match csv_line(&header) {
        Some(line) => {
            out.append(line.as_str());
            assert(Seq::<char>::empty() + line@ =~= line@);
            assert(lines_text(Seq::<Seq<Seq<char>>>::empty()) == Some(Seq::<char>::empty()));
            assert(lines_text(all.take(1)) == Some(out@));
        },
        None => {
            proof {
                lemma_lines_text_prefix(all, 1);
            }
            return Err(HandlerError::ServiceErrors(ServiceError::MalformedTable));
        },
    }
    assert(all.skip(1) =~= rows.deep_view());
    if append_lines(&mut out, rows, Ghost(all), Ghost(1)) {
        Ok(out)
    } else {
        Err(HandlerError::ServiceErrors(ServiceError::MalformedTable))
    }
}

/// The rows among a table's records: every record after the header.
pub fn rows_after_header(recs: Vec<Vec<String>>) -> (r: Result<Vec<Vec<String>>, HandlerError>)
    ensures
        recs@.len() >= 1 ==> (r matches Ok(rows) && rows.deep_view() == recs.deep_view().drop_first()),
        recs@.len() == 0 ==> (r matches Err(HandlerError::ServiceErrors(ServiceError::MalformedTable))),
{
    let mut recs = recs;
    if recs.len() == 0 {
        return Err(HandlerError::ServiceErrors(ServiceError::MalformedTable));
    }
    let ghost all = recs.deep_view();
    recs.remove(0);
    assert(recs.deep_view() =~= all.drop_first());
    Ok(recs)
}

/// The rows of a table's artifact: every record after the header.
pub fn parse_table_rows(text: &str) -> (r: Result<Vec<Vec<String>>, HandlerError>)
    ensures
        match csv_records_of(text@) {
            Some(recs) if recs.len() >= 1 => r matches Ok(rows) && rows.deep_view() == recs.drop_first(),
            _ => r matches Err(HandlerError::ServiceErrors(ServiceError::MalformedTable)),
        },
{
    match csv_records(text) {
        Some(recs) => rows_after_header(recs),
        None => Err(HandlerError::ServiceErrors(ServiceError::MalformedTable)),
    }
}

/// The CSV text of the relations log: the header `from_table,to_table,field`,
/// then one line per relation.
pub fn relations_text(relations: &Vec<Record>) -> (r: Result<String, HandlerError>)
    ensures
        match r {
            Ok(t) => relations_text_of(relations.deep_view()) == Some(t@),
            Err(e) => relations_text_of(relations.deep_view()) is None && e matches HandlerError::ServiceErrors(ServiceError::MalformedTable),
        },
{
    let mut rows: Vec<Vec<String>> = Vec::new();
    let mut header: Vec<String> = Vec::new();
    header.push("from_table".to_string());
    header.push("to_table".to_string());
    header.push("field".to_string());
    assert(header.deep_view() =~= relations_header());
    rows.push(header);
    let mut i: usize = 0;
    while i < relations.len()
        invariant
            i <= relations@.len(),
            rows@.len() == i + 1,
            rows@[0].deep_view() == relations_header(),
            forall|j: int|
                0 <= j < i ==> (#[trigger] rows@[j + 1]).deep_view() == relation_fields(
                    relations@[j]@,
                ),
        decreases relations@.len() - i,
    {
        let rel = &relations[i];
        let mut fields: Vec<String> = Vec::new();
        fields.push(rel.from_table.clone());
        fields.push(rel.to_table.clone());
        fields.push(rel.field.clone());
        assert(fields.deep_view() =~= relation_fields(rel@));
        rows.push(fields);
        i += 1;
    }
    assert(rows.deep_view() =~= seq![relations_header()] + relations.deep_view().map_values(
        |rel: Relation| relation_fields(rel),
    )) by {
        assert forall|j: int| 1 <= j < rows@.len() implies rows.deep_view()[j] == relation_fields(
            relations@[j - 1]@,
        ) by {
            assert(rows@[(j - 1) + 1].deep_view() == relation_fields(relations@[j - 1]@));
        }
    }
    let ghost all = rows.deep_view();
    let mut out = String::new();
    assert(all.take(0) =~= Seq::<Seq<Seq<char>>>::empty());
    assert(all.skip(0) =~= all);
    if append_lines(&mut out, &rows, Ghost(all), Ghost(0)) {
        Ok(out)
    } else {
        Err(HandlerError::ServiceErrors(ServiceError::MalformedTable))
    }
}

/// The relations among the log's records: every record after the header,
/// each of which must have three fields.
pub fn relations_of_records(recs: Vec<Vec<String>>) -> (r: Result<Vec<Record>, HandlerError>)
    ensures
        ({
            let all = recs.deep_view();
            if all.len() >= 1 && (forall|i: int| 1 <= i < all.len() ==> (#[trigger] all[i]).len() == 3) {
                r matches Ok(rels) && rels.deep_view() == all.drop_first().map_values(|f: Seq<Seq<char>>| relation_of(f))
            } else {
                r matches Err(HandlerError::ServiceErrors(ServiceError::MalformedTable))
            }
        }),
{
    let ghost all = recs.deep_view();
    if recs.len() == 0 {
        return Err(HandlerError::ServiceErrors(ServiceError::MalformedTable));
    }
    let mut out: Vec<Record> = Vec::new();
    let mut i: usize = 1;
    while i < recs.len()
        invariant
            1 <= i <= recs@.len(),
            all == recs.deep_view(),
            forall|j: int| 1 <= j < i ==> (#[trigger] all[j]).len() == 3,
            out@.len() == i - 1,
            forall|j: int| 0 <= j < i - 1 ==> (#[trigger] out@[j])@ == relation_of(all[j + 1]),
        decreases recs@.len() - i,
    {
        let fields = &recs[i];
        assert(fields.deep_view() == all[i as int]);
        if fields.len() != 3 {
            assert(all[i as int].len() != 3);
            return Err(HandlerError::ServiceErrors(ServiceError::MalformedTable));
        }
        let rec = Record::new(fields[0].clone(), fields[1].clone(), fields[2].clone());
        assert(rec@ == relation_of(all[i as int]));
        out.push(rec);
        i += 1;
    }
    assert(out.deep_view() =~= all.drop_first().map_values(|f: Seq<Seq<char>>| relation_of(f)));
    Ok(out)
}

/// The relations of the log's text: every record after the header, each of
/// which must have three fields.
pub fn read_relations_data(text: &str) -> (r: Result<Vec<Record>, HandlerError>)
    ensures
        match csv_records_of(text@) {
            Some(recs) if recs.len() >= 1 && (forall|i: int| 1 <= i < recs.len() ==> (#[trigger] recs[i]).len() == 3) =>
                r matches Ok(rels) && rels.deep_view() == recs.drop_first().map_values(|f: Seq<Seq<char>>| relation_of(f)),
            _ => r matches Err(HandlerError::ServiceErrors(ServiceError::MalformedTable)),
        },
{
    match csv_records(text) {
        Some(recs) => relations_of_records(recs),
        None => Err(HandlerError::ServiceErrors(ServiceError::MalformedTable)),
    }
}

} // verus!
