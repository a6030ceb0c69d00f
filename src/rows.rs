use vstd::prelude::*;
use crate::schema::{Field, Schema, ValueKind};
use crate::value::Value;

verus! {

/// Why rows handed back by a store do not make the records asked for.
#[derive(Debug, Clone, Copy, PartialEq, Eq)]
pub enum FetchError {
    /// A fetch of one record matched no row.
    NotFound,
    /// A fetch of one record matched more than one row.
    AmbiguousResult,
    /// The row at this index has another number of columns than the schema has fields.
    RowWidth(usize),
    /// The value at this row and column does not fit its field.
    Decode(usize, usize),
}

/// Whether `v` can stand in field `f`.
pub open spec fn fits(f: Field, v: Value) -> bool {
    match v {
        Value::Null => f.nullable,
        Value::Integer(_) => f.kind is Integer,
        Value::Text(_) => f.kind is Text,
    }
}

pub open spec fn row_fits(fields: Seq<Field>, row: Seq<Value>) -> bool {
    &&& row.len() == fields.len()
    &&& forall|c: int| 0 <= c < row.len() ==> fits(fields[c], #[trigger] row[c])
}

/// Whether `e` is the error owed for the row at `index`: a wrong width, or else
/// the first column whose value does not fit.
pub open spec fn row_error(fields: Seq<Field>, row: Seq<Value>, index: int, e: FetchError) -> bool {
    match e {
        FetchError::RowWidth(i) => i == index && row.len() != fields.len(),
        FetchError::Decode(i, c) => {
            &&& i == index
            &&& row.len() == fields.len()
            &&& c < row.len()
            &&& !fits(fields[c as int], row[c as int])
            &&& forall|d: int| 0 <= d < c ==> fits(fields[d], #[trigger] row[d])
        },
        _ => false,
    }
}

/// Whether `e` is the error owed for these rows: that of the first row that does not fit.
pub open spec fn rows_error(fields: Seq<Field>, rows: Seq<Vec<Value>>, e: FetchError) -> bool {
    exists|i: int|
        0 <= i < rows.len() && row_error(fields, rows[i]@, i, e) && forall|j: int|
            0 <= j < i ==> row_fits(fields, #[trigger] rows[j]@)
}

fn value_fits(f: &Field, v: &Value) -> (r: bool)
    ensures
        r == fits(*f, *v),
{
    match v {
        Value::Null => f.nullable,
        Value::Integer(_) => match f.kind {
            ValueKind::Integer => true,
            ValueKind::Text => false,
        },
        Value::Text(_) => match f.kind {
            ValueKind::Integer => false,
            ValueKind::Text => true,
        },
    }
}

/// Checks one row against the schema; `index` is its place among the rows returned.
pub fn check_row(schema: &Schema, row: &Vec<Value>, index: usize) -> (r: Result<(), FetchError>)
    ensures
        r is Ok <==> row_fits(schema.fields_view(), row@),
        r matches Err(e) ==> row_error(schema.fields_view(), row@, index as int, e),
{
    if row.len() != schema.len() {
        return Err(FetchError::RowWidth(index));
    }
    let mut c: usize = 0;
    while c < row.len()
        invariant
            row@.len() == schema.len_spec(),
            c <= row@.len(),
            forall|d: int| 0 <= d < c ==> fits(schema.fields_view()[d], #[trigger] row@[d]),
        decreases row@.len() - c,
    {
        if !value_fits(schema.field(c), &row[c]) {
            return Err(FetchError::Decode(index, c));
        }
        c = c + 1;
    }
    Ok(())
}

/// The records of a fetch of many: the rows as the store returned them, in its
/// order, once each is found to fit the schema.
pub fn finish_many(schema: &Schema, rows: Vec<Vec<Value>>) -> (r: Result<Vec<Vec<Value>>, FetchError>)
    ensures
        r is Ok <==> forall|i: int| 0 <= i < rows@.len() ==> row_fits(schema.fields_view(), #[trigger] rows@[i]@),
        r matches Ok(v) ==> v@ == rows@,
        r matches Err(e) ==> rows_error(schema.fields_view(), rows@, e),
{
    let mut i: usize = 0;
    while i < rows.len()
        invariant
            i <= rows@.len(),
            forall|j: int| 0 <= j < i ==> row_fits(schema.fields_view(), #[trigger] rows@[j]@),
        decreases rows@.len() - i,
    {
        match check_row(schema, &rows[i], i) {
            Ok(()) => {},
            Err(e) => {
                assert(row_error(schema.fields_view(), rows@[i as int]@, i as int, e));
                return Err(e);
            },
        }
        i = i + 1;
    }
    Ok(rows)
}

/// The record of a fetch of one: the single row returned, once it is found to
/// fit the schema. No row is `NotFound`, several are `AmbiguousResult`.
pub fn finish_one(schema: &Schema, rows: Vec<Vec<Value>>) -> (r: Result<Vec<Value>, FetchError>)
    ensures
        rows@.len() == 0 ==> r == Err::<Vec<Value>, FetchError>(FetchError::NotFound),
        rows@.len() > 1 ==> r == Err::<Vec<Value>, FetchError>(FetchError::AmbiguousResult),
        rows@.len() == 1 ==> {
            &&& (r is Ok <==> row_fits(schema.fields_view(), rows@[0]@))
            &&& (r matches Ok(v) ==> v == rows@[0])
            &&& (r matches Err(e) ==> row_error(schema.fields_view(), rows@[0]@, 0, e))
        },
{
    if rows.len() == 0 {
        return Err(FetchError::NotFound);
    }
    if rows.len() > 1 {
        return Err(FetchError::AmbiguousResult);
    }
    let mut rows = rows;
    let row = rows.pop().unwrap();
    match check_row(schema, &row, 0) {
        Ok(()) => Ok(row),
        Err(e) => Err(e),
    }
}

} // verus!
