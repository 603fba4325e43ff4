use vstd::bytes::*;
use vstd::prelude::*;
use vstd::utf8::*;

use crate::errors::{HandlerError, ServiceError};
use crate::field_model::{column_names, ColumnSpec, Field, FieldInfo};
use crate::field_type::FieldType;
use crate::tb_object::{find_column, lemma_position_of, position_of};

verus! {

broadcast use {encode_utf8_valid_utf8, encode_utf8_decode_utf8, decode_utf8_encode_utf8};

// ---------------------------------------------------------------------------
// The encoding of a schema
//
// A schema is its number of columns as a little-endian `u64`, then each
// column in order: the byte length of its name as a little-endian `u64`, the
// UTF-8 bytes of the name, the type's tag as a little-endian `u32` (followed,
// for `Varchar`, by the maximum length as a little-endian `u64`), and one
// byte, 0 or 1, for each of the flags `is_null`, `is_pk` and `is_fk`.
// ---------------------------------------------------------------------------

pub open spec fn type_tag(t: FieldType) -> u32 {
    match t {
        FieldType::Int => 0,
        FieldType::Float => 1,
        FieldType::Double => 2,
        FieldType::Varchar(_) => 3,
        FieldType::Text => 4,
        FieldType::Blob => 5,
        FieldType::Incorrect => 6,
    }
}

pub open spec fn type_bytes(t: FieldType) -> Seq<u8> {
    spec_u32_to_le_bytes(type_tag(t)) + match t {
        FieldType::Varchar(n) => spec_u64_to_le_bytes(n as u64),
        _ => Seq::empty(),
    }
}

pub open spec fn flag_byte(b: bool) -> u8 {
    if b {
        1
    } else {
        0
    }
}

pub open spec fn column_bytes(c: ColumnSpec) -> Seq<u8> {
    let name = encode_utf8(c.name);
    spec_u64_to_le_bytes(name.len() as u64) + name + type_bytes(c.field.field_type) + seq![
        flag_byte(c.field.is_null),
        flag_byte(c.field.is_pk),
        flag_byte(c.field.is_fk),
    ]
}

pub open spec fn columns_bytes(s: Seq<ColumnSpec>) -> Seq<u8>
    decreases s.len(),
{
    if s.len() == 0 {
        Seq::empty()
    } else {
        column_bytes(s[0]) + columns_bytes(s.drop_first())
    }
}

/// The encoding of a schema.
pub open spec fn schema_bytes(s: Seq<ColumnSpec>) -> Seq<u8> {
    spec_u64_to_le_bytes(s.len() as u64) + columns_bytes(s)
}

/// The schema's lengths fit the encoding's `u64` length fields.
pub open spec fn fits_encoding(s: Seq<ColumnSpec>) -> bool {
    &&& s.len() <= u64::MAX
    &&& forall|i: int| 0 <= i < s.len() ==> encode_utf8((#[trigger] s[i]).name).len() <= u64::MAX
}

// ---------------------------------------------------------------------------
// The decoding of a schema
// ---------------------------------------------------------------------------

/// The type that a tag gives, with the number of payload bytes after the tag.
pub open spec fn type_of_tag(tag: u32, rest: Seq<u8>) -> Option<(FieldType, nat)> {
    if tag == 0 {
        Some((FieldType::Int, 0nat))
    } else if tag == 1 {
        Some((FieldType::Float, 0nat))
    } else if tag == 2 {
        Some((FieldType::Double, 0nat))
    } else if tag == 3 {
        if rest.len() >= 8 && spec_u64_from_le_bytes(rest.take(8)) <= usize::MAX {
            Some((FieldType::Varchar(spec_u64_from_le_bytes(rest.take(8)) as usize), 8nat))
        } else {
            None
        }
    } else if tag == 4 {
        Some((FieldType::Text, 0nat))
    } else if tag == 5 {
        Some((FieldType::Blob, 0nat))
    } else if tag == 6 {
        Some((FieldType::Incorrect, 0nat))
    } else {
        None
    }
}

pub open spec fn flag_of(b: u8) -> Option<bool> {
    if b == 0 {
        Some(false)
    } else if b == 1 {
        Some(true)
    } else {
        None
    }
}

/// The column that the bytes start with, and how many bytes it takes.
#[verifier::opaque]
pub open spec fn parse_column(b: Seq<u8>) -> Option<(ColumnSpec, nat)> {
    if b.len() < 8 {
        None
    } else {
        let nl = spec_u64_from_le_bytes(b.take(8)) as int;
        if b.len() < 8 + nl {
            None
        } else {
            let nb = b.subrange(8, 8 + nl);
            let after = b.skip(8 + nl as int);
            if !valid_utf8(nb) || after.len() < 4 {
                None
            } else {
                match type_of_tag(spec_u32_from_le_bytes(after.take(4)), after.skip(4)) {
                    None => None,
                    Some((t, tl)) => {
                        let fl = after.skip(4 + tl as int);
                        if fl.len() < 3 {
                            None
                        } else {
                            match (flag_of(fl[0]), flag_of(fl[1]), flag_of(fl[2])) {
                                (Some(a), Some(p), Some(f)) => Some(
                                    (
                                        ColumnSpec {
                                            name: decode_utf8(nb),
                                            field: Field {
                                                field_type: t,
                                                is_null: a,
                                                is_pk: p,
                                                is_fk: f,
                                            },
                                        },
                                        (8 + nl + 4 + tl + 3) as nat,
                                    ),
                                ),
                                _ => None,
                            }
                        }
                    },
                }
            }
        }
    }
}

/// `n` columns that take up all of the bytes.
pub open spec fn parse_columns(b: Seq<u8>, n: nat) -> Option<Seq<ColumnSpec>>
    decreases n,
{
    if n == 0 {
        if b.len() == 0 {
            Some(Seq::empty())
        } else {
            None
        }
    } else {
        match parse_column(b) {
            None => None,
            Some((c, k)) => match parse_columns(b.skip(k as int), (n - 1) as nat) {
                None => None,
                Some(rest) => Some(seq![c] + rest),
            },
        }
    }
}

/// The schema that the bytes encode, if they encode one.
pub open spec fn parse_schema(b: Seq<u8>) -> Option<Seq<ColumnSpec>> {
    if b.len() < 8 {
        None
    } else {
        parse_columns(b.skip(8), spec_u64_from_le_bytes(b.take(8)) as nat)
    }
}

// ---------------------------------------------------------------------------
// Lemmas
// ---------------------------------------------------------------------------

proof fn lemma_columns_bytes_push(s: Seq<ColumnSpec>, c: ColumnSpec)
    ensures
        columns_bytes(s.push(c)) == columns_bytes(s) + column_bytes(c),
    decreases s.len(),
{
    if s.len() == 0 {
        assert(s.push(c).drop_first() =~= Seq::<ColumnSpec>::empty());
        assert(s.push(c)[0] == c);
        assert(columns_bytes(Seq::<ColumnSpec>::empty()) == Seq::<u8>::empty());
        assert(columns_bytes(s.push(c)) =~= column_bytes(c) + Seq::<u8>::empty());
        assert(columns_bytes(s) =~= Seq::<u8>::empty());
    } else {
        assert(s.push(c).drop_first() =~= s.drop_first().push(c));
        lemma_columns_bytes_push(s.drop_first(), c);
        assert(columns_bytes(s.push(c)) =~= columns_bytes(s) + column_bytes(c));
    }
}

proof fn lemma_parse_column_bytes(c: ColumnSpec, tail: Seq<u8>)
    requires
        encode_utf8(c.name).len() <= u64::MAX,
    ensures
        parse_column(column_bytes(c) + tail) == Some((c, column_bytes(c).len())),
{
    reveal(parse_column);
    lemma_auto_spec_u64_to_from_le_bytes();
    lemma_auto_spec_u32_to_from_le_bytes();
    let name = encode_utf8(c.name);
    let nl = name.len();
    let t = c.field.field_type;
    let b = column_bytes(c) + tail;
    let len_bytes = spec_u64_to_le_bytes(nl as u64);
    assert(b.take(8) =~= len_bytes);
    assert(spec_u64_from_le_bytes(b.take(8)) == nl);
    assert(b.subrange(8, 8 + nl as int) =~= name);
    let after = b.skip(8 + nl as int);
    let tb = type_bytes(t);
    let flags = seq![flag_byte(c.field.is_null), flag_byte(c.field.is_pk), flag_byte(c.field.is_fk)];
    assert(after =~= tb + flags + tail);
    assert(after.take(4) =~= spec_u32_to_le_bytes(type_tag(t)));
    let tl: nat = match t {
        FieldType::Varchar(_) => 8,
        _ => 0,
    };
    match t {
        FieldType::Varchar(n) => {
            assert(after.skip(4).take(8) =~= spec_u64_to_le_bytes(n as u64));
        },
        _ => {},
    }
    assert(type_of_tag(spec_u32_from_le_bytes(after.take(4)), after.skip(4)) == Some((t, tl)));
    assert(after.skip(4 + tl as int) =~= flags + tail);
    assert(decode_utf8(name) == c.name);
}

proof fn lemma_parse_columns_bytes(s: Seq<ColumnSpec>)
    requires
        forall|i: int| 0 <= i < s.len() ==> encode_utf8((#[trigger] s[i]).name).len() <= u64::MAX,
    ensures
        parse_columns(columns_bytes(s), s.len()) == Some(s),
    decreases s.len(),
{
    if s.len() > 0 {
        let rest = s.drop_first();
        assert forall|i: int| 0 <= i < rest.len() implies encode_utf8(
            (#[trigger] rest[i]).name,
        ).len() <= u64::MAX by {
            assert(rest[i] == s[i + 1]);
        }
        lemma_parse_columns_bytes(rest);
        lemma_parse_column_bytes(s[0], columns_bytes(rest));
        let b = columns_bytes(s);
        let k = column_bytes(s[0]).len();
        assert(b.skip(k as int) =~= columns_bytes(rest));
        assert(seq![s[0]] + rest =~= s);
    }
}

proof fn lemma_column_of_parse(b: Seq<u8>)
    requires
        parse_column(b) is Some,
    ensures
        ({
            let (c, k) = parse_column(b)->0;
            &&& k <= b.len()
            &&& b.take(k as int) == column_bytes(c)
            &&& encode_utf8(c.name).len() <= u64::MAX
        }),
{
    reveal(parse_column);
    lemma_auto_spec_u64_to_from_le_bytes();
    lemma_auto_spec_u32_to_from_le_bytes();
    let (c, k) = parse_column(b)->0;
    let nl = spec_u64_from_le_bytes(b.take(8)) as int;
    let nb = b.subrange(8, 8 + nl);
    let after = b.skip(8 + nl as int);
    let tag = spec_u32_from_le_bytes(after.take(4));
    let (t, tl) = type_of_tag(tag, after.skip(4))->0;
    let fl = after.skip(4 + tl as int);
    assert(encode_utf8(c.name) == nb);
    assert(spec_u64_to_le_bytes(nl as u64) == b.take(8));
    assert(type_tag(t) == tag);
    assert(spec_u32_to_le_bytes(type_tag(t)) == after.take(4));
    match t {
        FieldType::Varchar(n) => {
            assert(spec_u64_to_le_bytes(n as u64) == after.skip(4).take(8));
            assert(type_bytes(t) =~= after.take(12));
        },
        _ => {
            assert(type_bytes(t) =~= after.take(4));
        },
    }
    assert(flag_byte(c.field.is_null) == fl[0]);
    assert(flag_byte(c.field.is_pk) == fl[1]);
    assert(flag_byte(c.field.is_fk) == fl[2]);
    assert(b.take(k as int) =~= column_bytes(c));
}

proof fn lemma_columns_of_parse(b: Seq<u8>, n: nat)
    requires
        parse_columns(b, n) is Some,
    ensures
        ({
            let s = parse_columns(b, n)->0;
            &&& s.len() == n
            &&& columns_bytes(s) == b
            &&& forall|i: int|
                0 <= i < s.len() ==> encode_utf8((#[trigger] s[i]).name).len() <= u64::MAX
        }),
    decreases n,
{
    if n > 0 {
        let (c, k) = parse_column(b)->0;
        lemma_column_of_parse(b);
        lemma_columns_of_parse(b.skip(k as int), (n - 1) as nat);
        let rest = parse_columns(b.skip(k as int), (n - 1) as nat)->0;
        let s = seq![c] + rest;
        assert(s.drop_first() =~= rest);
        assert(b =~= b.take(k as int) + b.skip(k as int));
        assert forall|i: int| 0 <= i < s.len() implies encode_utf8(
            (#[trigger] s[i]).name,
        ).len() <= u64::MAX by {
            if i > 0 {
                assert(s[i] == rest[i - 1]);
            }
        }
    } else {
        assert(b =~= Seq::<u8>::empty());
    }
}

/// Decoding an encoded schema gives it back: its names, types, flags and
/// order.
pub proof fn lemma_schema_round_trip(s: Seq<ColumnSpec>)
    requires
        fits_encoding(s),
    ensures
        parse_schema(schema_bytes(s)) == Some(s),
{
    lemma_auto_spec_u64_to_from_le_bytes();
    let b = schema_bytes(s);
    assert(b.take(8) =~= spec_u64_to_le_bytes(s.len() as u64));
    assert(b.skip(8) =~= columns_bytes(s));
    lemma_parse_columns_bytes(s);
}

/// Only encodings decode: bytes that decode to a schema are its encoding.
pub proof fn lemma_decoded_schema_encodes(b: Seq<u8>)
    ensures
        parse_schema(b) matches Some(s) ==> fits_encoding(s) && schema_bytes(s) == b,
{
    lemma_auto_spec_u64_to_from_le_bytes();
    if parse_schema(b) is Some {
        let n = spec_u64_from_le_bytes(b.take(8));
        lemma_columns_of_parse(b.skip(8), n as nat);
        let s = parse_schema(b)->0;
        assert(spec_u64_to_le_bytes(s.len() as u64) == b.take(8));
        assert(b =~= b.take(8) + b.skip(8));
    }
}

// ---------------------------------------------------------------------------
// Executable encoding and decoding
// ---------------------------------------------------------------------------

/// Relies on `std::str::from_utf8`: the text that the bytes encode, when they
/// are valid UTF-8.
#[verifier::external_body]
fn utf8_text(bytes: &[u8]) -> (r: Option<String>)
    ensures
        match r {
            Some(s) => valid_utf8(bytes@) && s@ == decode_utf8(bytes@),
            None => !valid_utf8(bytes@),
        },
{
    std::str::from_utf8(bytes).ok().map(|s| s.to_string())
}

fn append_bytes(out: &mut Vec<u8>, b: &[u8])
    ensures
        final(out)@ == old(out)@ + b@,
{
    let mut i: usize = 0;
    while i < b.len()
        invariant
            i <= b@.len(),
            out@ == old(out)@ + b@.take(i as int),
        decreases b@.len() - i,
    {
        out.push(b[i]);
        i += 1;
        assert(out@ =~= old(out)@ + b@.take(i as int));
    }
    assert(b@.take(b@.len() as int) =~= b@);
}

fn tag_of(t: FieldType) -> (r: u32)
    ensures
        r == type_tag(t),
{
    match t {
        FieldType::Int => 0,
        FieldType::Float => 1,
        FieldType::Double => 2,
        FieldType::Varchar(_) => 3,
        FieldType::Text => 4,
        FieldType::Blob => 5,
        FieldType::Incorrect => 6,
    }
}

fn flag(b: bool) -> (r: u8)
    ensures
        r == flag_byte(b),
{
    if b {
        1
    } else {
        0
    }
}

fn push_column(out: &mut Vec<u8>, f: &FieldInfo)
    ensures
        final(out)@ == old(out)@ + column_bytes(f@),
        encode_utf8(f@.name).len() <= u64::MAX,
{
    let name = f.field_name.as_str().as_bytes();
    let nl = name.len();
    append_bytes(out, u64_to_le_bytes(nl as u64).as_slice());
    append_bytes(out, name);
    append_bytes(out, u32_to_le_bytes(tag_of(f.field.field_type)).as_slice());
    match f.field.field_type {
        FieldType::Varchar(n) => {
            append_bytes(out, u64_to_le_bytes(n as u64).as_slice());
        },
        _ => {},
    }
    out.push(flag(f.field.is_null));
    out.push(flag(f.field.is_pk));
    out.push(flag(f.field.is_fk));
    assert(out@ =~= old(out)@ + column_bytes(f@));
}

/// The bytes of the schema's side-car artifact.
pub fn encode_schema(fields: &Vec<FieldInfo>) -> (r: Vec<u8>)
    ensures
        r@ == schema_bytes(fields.deep_view()),
        fits_encoding(fields.deep_view()),
{
    let ghost s = fields.deep_view();
    let mut out: Vec<u8> = Vec::new();
    append_bytes(&mut out, u64_to_le_bytes(fields.len() as u64).as_slice());
    let ghost head = out@;
    let mut i: usize = 0;
    while i < fields.len()
        invariant
            i <= fields@.len(),
            s == fields.deep_view(),
            head == spec_u64_to_le_bytes(s.len() as u64),
            out@ == head + columns_bytes(s.take(i as int)),
            forall|j: int| 0 <= j < i ==> encode_utf8((#[trigger] s[j]).name).len() <= u64::MAX,
        decreases fields@.len() - i,
    {
        push_column(&mut out, &fields[i]);
        proof {
            assert(s.take(i + 1) =~= s.take(i as int).push(s[i as int]));
            lemma_columns_bytes_push(s.take(i as int), s[i as int]);
        }
        i += 1;
        assert(out@ =~= head + columns_bytes(s.take(i as int)));
    }
    assert(s.take(fields@.len() as int) =~= s);
    out
}

/// The field type at `bytes[from..]`, with the place after it.
fn read_type(bytes: &[u8], from: usize) -> (r: Option<(FieldType, usize)>)
    requires
        from + 4 <= bytes@.len(),
    ensures
        ({
            let after = bytes@.skip(from as int);
            match r {
                Some((t, k)) => type_of_tag(spec_u32_from_le_bytes(after.take(4)), after.skip(4))
                    == Some((t, (k - from - 4) as nat)) && from + 4 <= k <= bytes@.len(),
                None => type_of_tag(spec_u32_from_le_bytes(after.take(4)), after.skip(4)) is None,
            }
        }),
{
    let n = bytes.len();
    let ghost after = bytes@.skip(from as int);
    assert(after.take(4) =~= bytes@.subrange(from as int, from + 4));
    let tag = u32_from_le_bytes(&bytes[from..from + 4]);
    let p = from + 4;
    if tag == 0 {
        Some((FieldType::Int, p))
    } else if tag == 1 {
        Some((FieldType::Float, p))
    } else if tag == 2 {
        Some((FieldType::Double, p))
    } else if tag == 3 {
        if n - p < 8 {
            return None;
        }
        assert(after.skip(4).take(8) =~= bytes@.subrange(p as int, p + 8));
        let v = u64_from_le_bytes(&bytes[p..p + 8]);
        if v > usize::MAX as u64 {
            return None;
        }
        Some((FieldType::Varchar(v as usize), p + 8))
    } else if tag == 4 {
        Some((FieldType::Text, p))
    } else if tag == 5 {
        Some((FieldType::Blob, p))
    } else if tag == 6 {
        Some((FieldType::Incorrect, p))
    } else {
        None
    }
}

fn read_flag(b: u8) -> (r: Option<bool>)
    ensures
        r == flag_of(b),
{
    if b == 0 {
        Some(false)
    } else if b == 1 {
        Some(true)
    } else {
        None
    }
}

/// The column at `bytes[from..]`, with the place after it.
fn read_column(bytes: &[u8], from: usize) -> (r: Option<(FieldInfo, usize)>)
    requires
        from <= bytes@.len(),
    ensures
        match r {
            Some((f, k)) => parse_column(bytes@.skip(from as int)) == Some(
                (f@, (k - from) as nat),
            ) && from <= k <= bytes@.len(),
            None => parse_column(bytes@.skip(from as int)) is None,
        },
{
    reveal(parse_column);
    let n = bytes.len();
    let ghost b = bytes@.skip(from as int);
    if n - from < 8 {
        return None;
    }
    assert(b.take(8) =~= bytes@.subrange(from as int, from + 8));
    let nl64 = u64_from_le_bytes(&bytes[from..from + 8]);
    if nl64 > (n - from - 8) as u64 {
        return None;
    }
    let nl = nl64 as usize;
    let p = from + 8;
    assert(b.subrange(8, 8 + nl) =~= bytes@.subrange(p as int, p + nl));
    let name = match utf8_text(&bytes[p..p + nl]) {
        Some(s) => s,
        None => {
            return None;
        },
    };
    let q = p + nl;
    let ghost after = b.skip(8 + nl);
    assert(after =~= bytes@.skip(q as int));
    if n - q < 4 {
        return None;
    }
    let (t, r) = match read_type(bytes, q) {
        Some(x) => x,
        None => {
            return None;
        },
    };
    assert(after.skip(4 + (r - q - 4)) =~= bytes@.skip(r as int));
    if n - r < 3 {
        return None;
    }
    let a = read_flag(bytes[r]);
    let pk = read_flag(bytes[r + 1]);
    let fk = read_flag(bytes[r + 2]);
    match (a, pk, fk) {
        (Some(a), Some(pk), Some(fk)) => {
            let f = FieldInfo {
                field: Field { field_type: t, is_null: a, is_pk: pk, is_fk: fk },
                field_name: name,
            };
            Some((f, r + 3))
        },
        _ => None,
    }
}

/// The schema that the side-car bytes encode. Bytes that are not the
/// encoding of a schema are reported as a decode error.
pub fn decode_schema(bytes: &[u8]) -> (r: Result<Vec<FieldInfo>, HandlerError>)
    ensures
        match r {
            Ok(v) => parse_schema(bytes@) == Some(v.deep_view()),
            Err(e) => parse_schema(bytes@) is None && e matches HandlerError::ServiceErrors(
                ServiceError::SchemaDecodeError,
            ),
        },
{
    let n = bytes.len();
    if n < 8 {
        return Err(HandlerError::ServiceErrors(ServiceError::SchemaDecodeError));
    }
    assert(bytes@.take(8) =~= bytes@.subrange(0, 8));
    let count = u64_from_le_bytes(&bytes[0..8]);
    let ghost total = parse_schema(bytes@);
    let mut out: Vec<FieldInfo> = Vec::new();
    let mut off: usize = 8;
    let mut i: u64 = 0;
    assert(bytes@.skip(8) =~= bytes@.skip(off as int));
    while i < count
        invariant
            8 <= off <= n == bytes@.len(),
            i <= count,
            count == spec_u64_from_le_bytes(bytes@.take(8)),
            total == parse_schema(bytes@),
            total == match parse_columns(bytes@.skip(off as int), (count - i) as nat) {
                Some(rest) => Some(out.deep_view() + rest),
                None => None::<Seq<ColumnSpec>>,
            },
        decreases count - i,
    {
        match read_column(bytes, off) {
            Some((f, k)) => {
                assert(bytes@.skip(off as int).skip((k - off) as int) =~= bytes@.skip(k as int));
                let ghost prev = out.deep_view();
                out.push(f);
                assert(out.deep_view() =~= prev.push(f@));
                proof {
                    let tail = parse_columns(bytes@.skip(k as int), (count - i - 1) as nat);
                    if tail is Some {
                        assert(prev + (seq![f@] + tail->0) =~= out.deep_view() + tail->0);
                    }
                }
                off = k;
                i = i + 1;
            },
            None => {
                return Err(HandlerError::ServiceErrors(ServiceError::SchemaDecodeError));
            },
        }
    }
    if off != n {
        assert(bytes@.skip(off as int).len() != 0);
        return Err(HandlerError::ServiceErrors(ServiceError::SchemaDecodeError));
    }
    assert(out.deep_view() + Seq::<ColumnSpec>::empty() =~= out.deep_view());
    Ok(out)
}

// ---------------------------------------------------------------------------
// A table's schema with its name
// ---------------------------------------------------------------------------

/// A table's name with its schema. The column names are meant to be
/// distinct; where a name occurs twice, its first column is the one found.
#[derive(Debug)]
pub struct BinaryStorage {
    pub table_name: String,
    pub fields: Vec<FieldInfo>,
}

impl BinaryStorage {
    /// The type of the named column, which must be in the schema (of the
    /// first column of that name).
    pub fn get_type(&self, name: String) -> (r: FieldType)
        requires
            column_names(self.fields.deep_view()).contains(name@),
        ensures
            r == self.fields.deep_view()[position_of(
                column_names(self.fields.deep_view()),
                name@,
            )].field.field_type,
    {
        proof {
            lemma_position_of(column_names(self.fields.deep_view()), name@);
        }
        match find_column(&self.fields, name.as_str()) {
            Some(p) => self.fields[p].field.field_type,
            None => FieldType::Incorrect,
        }
    }
}

} // verus!
