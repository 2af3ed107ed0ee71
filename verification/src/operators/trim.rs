//! `trim`: takes the white space off both ends of fields.
use crate::ast::{Column, ColumnSpec};
use crate::operators::lib::{column_indices, get_headers, resolve_all, RunError, RunFault};
use crate::record::{field_at, field_count, fields, record_of, rows};
use crate::text::{texts, trim, trimmed};
use vstd::prelude::*;

verus! {

/// `row` with the fields in `columns` trimmed: all of them where `columns`
/// is `None`. The other fields stay as they are.
pub open spec fn trimmed_row(row: Seq<Seq<char>>, columns: Option<Seq<usize>>) -> Seq<Seq<char>> {
    Seq::new(
        row.len(),
        |k: int|
            if columns is None || columns.unwrap().contains(k as usize) {
                trimmed(row[k])
            } else {
                row[k]
            },
    )
}

/// `table` with the fields of its data rows in `columns` trimmed. The header
/// stays as it is.
pub open spec fn trimmed_rows(table: Seq<Seq<Seq<char>>>, columns: Option<Seq<usize>>) -> Seq<
    Seq<Seq<char>>,
> {
    Seq::new(
        table.len(),
        |i: int|
            if i == 0 {
                table[0]
            } else {
                trimmed_row(table[i], columns)
            },
    )
}

/// What `trim` makes of a table: with `*` every field of every data row is
/// trimmed, with names the fields in the named columns. A table without a
/// header is an error, and so is a name that the header does not have.
pub open spec fn trimmed_table(table: Seq<Seq<Seq<char>>>, columns: ColumnSpec) -> Result<
    Seq<Seq<Seq<char>>>,
    RunFault,
> {
    if table.len() == 0 {
        Err(RunFault::EmptyStream)
    } else {
        match columns {
            ColumnSpec::All => Ok(trimmed_rows(table, None)),
            ColumnSpec::Names(names) => match column_indices(table[0], names, seq![]) {
                Ok(indices) => Ok(trimmed_rows(table, Some(indices))),
                Err(fault) => Err(fault),
            },
        }
    }
}

/// The columns that an optional list of indices stands for.
pub open spec fn chosen(columns: Option<Vec<usize>>) -> Option<Seq<usize>> {
    match columns {
        Some(indices) => Some(indices@),
        None => None,
    }
}

fn among(columns: &Vec<usize>, column: usize) -> (present: bool)
    ensures
        present == columns@.contains(column),
{
    let mut k: usize = 0;
    while k < columns.len()
        invariant
            k <= columns.len(),
            forall|j: int| 0 <= j < k ==> columns@[j] != column,
        decreases columns.len() - k,
    {
        if columns[k] == column {
            return true;
        }
        k += 1;
    }
    false
}

/// `record` with the fields in `columns` trimmed: all of them where
/// `columns` is `None`.
pub fn apply(columns: &Option<Vec<usize>>, record: &csv::StringRecord) -> (clean: csv::StringRecord)
    ensures
        fields(clean) == trimmed_row(fields(*record), chosen(*columns)),
{
    let ghost which = chosen(*columns);
    let count = field_count(record);
    let mut values: Vec<String> = Vec::new();
    let mut k: usize = 0;
    while k < count
        invariant
            k <= count == fields(*record).len(),
            which == chosen(*columns),
            texts(values@) == trimmed_row(fields(*record), which).take(k as int),
        decreases count - k,
    {
        let touched = match columns {
            Some(indices) => among(indices, k),
            None => true,
        };
        let value = match field_at(record, k) {
            Some(field) => if touched {
                String::from_str(trim(field))
            } else {
                String::from_str(field)
            },
            None => String::new(),
        };
        assert(texts(values@.push(value)) =~= texts(values@).push(value@));
        assert(trimmed_row(fields(*record), which).take(k + 1) =~= trimmed_row(
            fields(*record),
            which,
        ).take(k as int).push(value@));
        values.push(value);
        k += 1;
    }
    assert(trimmed_row(fields(*record), which).take(count as int) == trimmed_row(
        fields(*record),
        which,
    ));
    record_of(values)
}

/// Runs `trim` on a table. What it returns is [`trimmed_table`] of the
/// table.
pub fn run(records: Vec<csv::StringRecord>, columns: &Column) -> (outcome: Result<
    Vec<csv::StringRecord>,
    RunError,
>)
    ensures
        match outcome {
            Ok(table) => trimmed_table(rows(records@), columns@) == Ok::<
                Seq<Seq<Seq<char>>>,
                RunFault,
            >(rows(table@)),
            Err(error) => trimmed_table(rows(records@), columns@) == Err::<
                Seq<Seq<Seq<char>>>,
                RunFault,
            >(error@),
        },
{
    let (raw_headers, headers) = match get_headers(&records) {
        Ok(header) => header,
        Err(error) => {
            return Err(error);
        },
    };
    let indices: Option<Vec<usize>> = match columns {
        Column::All => None,
        Column::Names(names) => match resolve_all(&headers, names) {
            Ok(indices) => Some(indices),
            Err(error) => {
                return Err(error);
            },
        },
    };
    let ghost which = chosen(indices);
    let ghost table = rows(records@);
    let mut out: Vec<csv::StringRecord> = Vec::new();
    out.push(raw_headers);
    assert(rows(out@) =~= trimmed_rows(table, which).take(1));
    let mut i: usize = 1;
    while i < records.len()
        invariant
            1 <= i <= records.len(),
            table == rows(records@),
            which == chosen(indices),
            rows(out@) == trimmed_rows(table, which).take(i as int),
        decreases records.len() - i,
    {
        let clean = apply(&indices, &records[i]);
        assert(rows(out@.push(clean)) =~= rows(out@).push(fields(clean)));
        assert(trimmed_rows(table, which).take(i + 1) =~= trimmed_rows(table, which).take(
            i as int,
        ).push(fields(clean)));
        out.push(clean);
        i += 1;
    }
    assert(trimmed_rows(table, which).take(records.len() as int) == trimmed_rows(table, which));
    Ok(out)
}

} // verus!
