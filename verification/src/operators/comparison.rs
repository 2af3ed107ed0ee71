//! `where`: keeps the rows whose field in one column meets a comparison.
use crate::ast::{Comparison, Predicate};
use crate::operators::lib::{
    column_index,
    complaints,
    first_missing_one,
    get_headers,
    resolve,
    Diagnostic,
    RunError,
    RunFault,
};
use crate::pattern::finds;
use crate::record::{duplicate, field_at, fields, rows};
use crate::text::same;
use vstd::prelude::*;

verus! {

/// Whether `field` meets `predicate`: it is the very string asked for, or
/// the pattern finds a match somewhere in it.
pub open spec fn holds(predicate: Predicate, field: Seq<char>) -> bool {
    match predicate {
        Predicate::Equals(literal) => field == literal,
        Predicate::Matches(pattern) => finds(pattern, field),
    }
}

/// The test that a row passes if it has a field in `column` and that field
/// meets `predicate`.
pub open spec fn passes(column: usize, predicate: Predicate) -> spec_fn(Seq<Seq<char>>) -> bool {
    |row: Seq<Seq<char>>| column < row.len() && holds(predicate, row[column as int])
}

/// What `where` makes of a table: the header, and after it the data rows
/// that have a field in the named column which meets the predicate, in their
/// order. A table without a header is an error, and so is a name that the
/// header does not have.
pub open spec fn filtered(table: Seq<Seq<Seq<char>>>, name: Seq<char>, predicate: Predicate) -> Result<
    Seq<Seq<Seq<char>>>,
    RunFault,
> {
    if table.len() == 0 {
        Err(RunFault::EmptyStream)
    } else {
        match column_index(table[0], name) {
            Some(column) => Ok(seq![table[0]] + table.skip(1).filter(passes(column, predicate))),
            None => Err(RunFault::UnknownColumn(name)),
        }
    }
}

/// The data rows of a table that have no field in the named column.
pub open spec fn fieldless(table: Seq<Seq<Seq<char>>>, name: Seq<char>) -> Seq<Diagnostic> {
    if table.len() == 0 {
        seq![]
    } else {
        match column_index(table[0], name) {
            Some(column) => complaints(table, seq![column], table.len()),
            None => seq![],
        }
    }
}

/// A filter for equality keeps exactly the rows that have the value.
/// Wherever it returns a table, that table begins with the header of the
/// table it was given; each row after the header has the value `wanted` in
/// the column and is a data row of the given table; and each data row of the
/// given table that has `wanted` in the column is among them.
pub proof fn equality_partitions(table: Seq<Seq<Seq<char>>>, name: Seq<char>, wanted: Seq<char>)
    ensures
        filtered(table, name, Predicate::Equals(wanted)) matches Ok(kept) ==> {
            let column = column_index(table[0], name).unwrap() as int;
            &&& kept.len() > 0
            &&& kept[0] == table[0]
            &&& forall|k: int|
                1 <= k < kept.len() ==> column < (#[trigger] kept[k]).len() && kept[k][column]
                    == wanted
            &&& forall|k: int| 1 <= k < kept.len() ==> table.skip(1).contains(#[trigger] kept[k])
            &&& forall|i: int|
                1 <= i < table.len() && column < (#[trigger] table[i]).len() && table[i][column]
                    == wanted ==> kept.skip(1).contains(table[i])
        },
{
    if let Ok(kept) = filtered(table, name, Predicate::Equals(wanted)) {
        let column = column_index(table[0], name).unwrap();
        let test = passes(column, Predicate::Equals(wanted));
        let data = table.skip(1);
        assert(kept.skip(1) =~= data.filter(test));
        assert forall|k: int| 1 <= k < kept.len() implies column < (#[trigger] kept[k]).len()
            && kept[k][column as int] == wanted && table.skip(1).contains(kept[k]) by {
            data.lemma_filter_pred(test, k - 1);
            assert(kept[k] == data.filter(test)[k - 1]);
            assert(data.filter(test).contains(kept[k]));
            data.lemma_filter_contains_rev(test, kept[k]);
        }
        assert forall|i: int|
            1 <= i < table.len() && column < (#[trigger] table[i]).len()
                && table[i][column as int] == wanted implies kept.skip(1).contains(table[i]) by {
            assert(data[i - 1] == table[i]);
            data.lemma_filter_contains(test, i - 1);
        }
    }
}

/// Tells whether `record` is rejected: whether its field in `column` fails
/// the comparison. A record that has no field there is an error, which holds
/// the column.
pub fn apply(column: usize, comparison: &Comparison, record: &csv::StringRecord) -> (outcome:
    Result<bool, usize>)
    ensures
        match outcome {
            Ok(rejected) => column < fields(*record).len() && rejected == !holds(
                comparison@,
                fields(*record)[column as int],
            ),
            Err(missing) => column >= fields(*record).len() && missing == column,
        },
{
    let value = match field_at(record, column) {
        Some(value) => value,
        None => {
            return Err(column);
        },
    };
    match comparison {
        Comparison::Equals(other) => Ok(!same(value, other.as_str())),
        Comparison::Matches(pattern) => Ok(!pattern.is_match(value)),
    }
}

/// Runs `where` on a table. What it returns is [`filtered`] of the table,
/// and for each row that has no field in the column a diagnostic is added to
/// `log`.
pub fn run(
    records: Vec<csv::StringRecord>,
    column: &str,
    comparison: &Comparison,
    log: &mut Vec<Diagnostic>,
) -> (outcome: Result<Vec<csv::StringRecord>, RunError>)
    ensures
        match outcome {
            Ok(table) => filtered(rows(records@), column@, comparison@) == Ok::<
                Seq<Seq<Seq<char>>>,
                RunFault,
            >(rows(table@)),
            Err(error) => filtered(rows(records@), column@, comparison@) == Err::<
                Seq<Seq<Seq<char>>>,
                RunFault,
            >(error@),
        },
        final(log)@ == old(log)@ + fieldless(rows(records@), column@),
{
    assert(old(log)@ + Seq::<Diagnostic>::empty() == old(log)@);
    let (raw_headers, headers) = match get_headers(&records) {
        Ok(header) => header,
        Err(error) => {
            return Err(error);
        },
    };
    let column_index = match resolve(&headers, column) {
        Ok(index) => index,
        Err(error) => {
            return Err(error);
        },
    };
    let ghost table = rows(records@);
    let ghost test = passes(column_index, comparison@);
    let mut out: Vec<csv::StringRecord> = Vec::new();
    out.push(raw_headers);
    assert(table.subrange(1, 1) =~= seq![]);
    assert(rows(out@) =~= seq![table[0]] + table.subrange(1, 1).filter(test));
    let mut i: usize = 1;
    while i < records.len()
        invariant
            1 <= i <= records.len(),
            table == rows(records@),
            test == passes(column_index, comparison@),
            rows(out@) == seq![table[0]] + table.subrange(1, i as int).filter(test),
            log@ == old(log)@ + complaints(table, seq![column_index], i as nat),
        decreases records.len() - i,
    {
        let ghost seen = table.subrange(1, i as int);
        let ghost said = complaints(table, seq![column_index], i as nat);
        assert(table.subrange(1, i + 1) =~= seen.push(table[i as int]));
        proof {
            first_missing_one(table[i as int], column_index);
            seen.lemma_filter_push(table[i as int], test);
            assert(test(table[i as int]) == (column_index < table[i as int].len() && holds(
                comparison@,
                table[i as int][column_index as int],
            )));
            assert(table[i as int] == fields(records@[i as int]));
        }
        match apply(column_index, comparison, &records[i]) {
            Ok(rejected) => {
                if !rejected {
                    let kept = duplicate(&records[i]);
                    assert(rows(out@.push(kept)) =~= rows(out@).push(fields(kept)));
                    assert(seq![table[0]] + seen.filter(test).push(table[i as int]) =~= (
                    seq![table[0]] + seen.filter(test)).push(table[i as int]));
                    out.push(kept);
                }
            },
            Err(missing) => {
                assert(old(log)@ + said.push(Diagnostic { row: i, column: missing }) == (old(
                    log,
                )@ + said).push(Diagnostic { row: i, column: missing }));
                log.push(Diagnostic { row: i, column: missing });
            },
        }
        i += 1;
    }
    assert(table.subrange(1, records.len() as int) == table.skip(1));
    Ok(out)
}

} // verus!
