//! `select`: keeps the named columns, in the order in which they are named.
use crate::ast::{Column, ColumnSpec};
use crate::operators::lib::{
    column_index,
    column_index_found,
    column_indices,
    column_indices_found,
    complete_all,
    first_missing_none,
    representable,
    complaints,
    complete,
    first_missing,
    get_headers,
    resolve_all,
    Diagnostic,
    RunError,
    RunFault,
};
use crate::record::{field_at, fields, record_of, rows};
use crate::text::{copied, texts};
use vstd::prelude::*;

verus! {

/// The fields of `row` in `columns`, in the order of `columns`.
pub open spec fn projected(row: Seq<Seq<char>>, columns: Seq<usize>) -> Seq<Seq<char>> {
    columns.map_values(|column: usize| row[column as int])
}

/// The rows of `table` at `places`, each cut down to `columns`.
pub open spec fn projections(
    table: Seq<Seq<Seq<char>>>,
    columns: Seq<usize>,
    places: Seq<usize>,
) -> Seq<Seq<Seq<char>>> {
    places.map_values(|place: usize| projected(table[place as int], columns))
}

/// What `select` makes of a table. With `*` the table stays as it is,
/// whatever it holds. With names, the header becomes the names, and each data
/// row that has a field in every named column is cut down to those fields, in
/// the order of the names; the other data rows are left out. With names, a
/// table without a header is an error, and so is a name that the header does
/// not have.
pub open spec fn selected(table: Seq<Seq<Seq<char>>>, columns: ColumnSpec) -> Result<
    Seq<Seq<Seq<char>>>,
    RunFault,
> {
    match columns {
        ColumnSpec::All => Ok(table),
        ColumnSpec::Names(names) => if table.len() == 0 {
            Err(RunFault::EmptyStream)
        } else {
            match column_indices(table[0], names, seq![]) {
                Ok(indices) => Ok(
                    seq![names] + projections(
                        table,
                        indices,
                        complete(table, indices, table.len()),
                    ),
                ),
                Err(fault) => Err(fault),
            }
        },
    }
}

/// The data rows that `select` leaves out of a table, each with the first
/// named column that it lacks.
pub open spec fn unselected(table: Seq<Seq<Seq<char>>>, columns: ColumnSpec) -> Seq<Diagnostic> {
    match columns {
        ColumnSpec::Names(names) if table.len() > 0 => match column_indices(
            table[0],
            names,
            seq![],
        ) {
            Ok(indices) => complaints(table, indices, table.len()),
            Err(_) => seq![],
        },
        _ => seq![],
    }
}

/// `select *` returns a table as it is given, header and rows, and leaves no
/// row out.
pub proof fn select_all_is_identity(table: Seq<Seq<Seq<char>>>)
    ensures
        selected(table, ColumnSpec::All) == Ok::<Seq<Seq<Seq<char>>>, RunFault>(table),
        unselected(table, ColumnSpec::All) == Seq::<Diagnostic>::empty(),
{
}

/// What `select` returns for a list of names has the shape of its header:
/// the header holds the names, and every row has one field for each name.
pub proof fn selected_rows_match_header(table: Seq<Seq<Seq<char>>>, names: Seq<Seq<char>>)
    ensures
        selected(table, ColumnSpec::Names(names)) matches Ok(out) ==> out.len() > 0 && out[0]
            == names && forall|k: int| 0 <= k < out.len() ==> (#[trigger] out[k]).len()
            == names.len(),
{
    if let Ok(out) = selected(table, ColumnSpec::Names(names)) {
        column_indices_found(table[0], names, seq![]);
    }
}

/// Selecting the same columns a second time changes nothing: where `select`
/// turns a table into another, it turns that one into itself and leaves no
/// row of it out.
pub proof fn select_is_idempotent(table: Seq<Seq<Seq<char>>>, columns: ColumnSpec)
    requires
        representable(table),
        columns matches ColumnSpec::Names(names) ==> names.len() <= usize::MAX,
    ensures
        selected(table, columns) matches Ok(once) ==> selected(once, columns) == Ok::<
            Seq<Seq<Seq<char>>>,
            RunFault,
        >(once) && unselected(once, columns) == Seq::<Diagnostic>::empty(),
{
    if let Ok(once) = selected(table, columns) {
        if let ColumnSpec::Names(names) = columns {
            let indices = column_indices(table[0], names, seq![])->Ok_0;
            let places = complete(table, indices, table.len());
            column_indices_found(table[0], names, seq![]);
            crate::operators::lib::complete_rows(table, indices, table.len());
            assert(once.len() == 1 + places.len());
            assert(once[0] == names);
            // Each name stands in the new header, so it refers to a column of it.
            column_indices_found(names, names, seq![]);
            assert forall|j: int| 0 <= j < names.len() implies column_index(
                names,
                #[trigger] names[j],
            ) is Some by {
                column_index_found(names, names[j]);
            }
            let again = column_indices(names, names, seq![])->Ok_0;
            assert forall|j: int| 0 <= j < names.len() implies again[j] < names.len()
                && indices[again[j] as int] == indices[j] by {
                column_index_found(names, names[j]);
                assert(column_index(names, names[j]) == Some(again[j]));
                assert(names[again[j] as int] == names[j]);
                assert(column_index(table[0], names[again[j] as int]) == Some(
                    indices[again[j] as int],
                ));
            }
            assert forall|i: int| 1 <= i < once.len() implies first_missing(
                #[trigger] once[i],
                again,
            ) is None && projected(once[i], again) == once[i] by {
                let row = table[places[i - 1] as int];
                assert(once[i] == projected(row, indices));
                first_missing_none(once[i], again);
                assert(projected(once[i], again) =~= once[i]);
            }
            complete_all(once, again, once.len());
            assert(selected(once, columns)->Ok_0 =~= once);
        }
    }
}

/// The fields of `record` in `columns`, as a new record; or the first of
/// `columns` in which `record` has no field.
pub fn apply(columns: &Vec<usize>, record: &csv::StringRecord) -> (outcome: Result<
    csv::StringRecord,
    usize,
>)
    ensures
        match outcome {
            Ok(cut) => first_missing(fields(*record), columns@) is None && fields(cut)
                == projected(fields(*record), columns@),
            Err(column) => first_missing(fields(*record), columns@) == Some(column),
        },
{
    let mut values: Vec<String> = Vec::new();
    let mut k: usize = 0;
    assert(columns@.skip(0) == columns@);
    while k < columns.len()
        invariant
            k <= columns.len(),
            first_missing(fields(*record), columns@) == first_missing(
                fields(*record),
                columns@.skip(k as int),
            ),
            texts(values@) == projected(fields(*record), columns@.take(k as int)),
        decreases columns.len() - k,
    {
        assert(columns@.skip(k as int).drop_first() == columns@.skip(k + 1));
        match field_at(record, columns[k]) {
            Some(field) => {
                let value = String::from_str(field);
                assert(texts(values@.push(value)) =~= texts(values@).push(value@));
                assert(projected(fields(*record), columns@.take(k + 1)) =~= projected(
                    fields(*record),
                    columns@.take(k as int),
                ).push(value@));
                values.push(value);
            },
            None => {
                return Err(columns[k]);
            },
        }
        k += 1;
    }
    assert(columns@.take(columns.len() as int) == columns@);
    Ok(record_of(values))
}

/// Runs `select` on a table. What it returns is [`selected`] of the table,
/// and for each row that it leaves out a diagnostic is added to `log`.
pub fn run(records: Vec<csv::StringRecord>, columns: &Column, log: &mut Vec<Diagnostic>) -> (outcome:
    Result<Vec<csv::StringRecord>, RunError>)
    ensures
        match outcome {
            Ok(table) => selected(rows(records@), columns@) == Ok::<
                Seq<Seq<Seq<char>>>,
                RunFault,
            >(rows(table@)),
            Err(error) => selected(rows(records@), columns@) == Err::<
                Seq<Seq<Seq<char>>>,
                RunFault,
            >(error@),
        },
        columns@ is All ==> (outcome matches Ok(table) ==> table@ == records@),
        final(log)@ == old(log)@ + unselected(rows(records@), columns@),
{
    assert(old(log)@ + Seq::<Diagnostic>::empty() == old(log)@);
    match columns {
        Column::All => Ok(records),
        Column::Names(names) => {
            let (_raw, headers) = match get_headers(&records) {
                Ok(header) => header,
                Err(error) => {
                    return Err(error);
                },
            };
            let indices = match resolve_all(&headers, names) {
                Ok(indices) => indices,
                Err(error) => {
                    return Err(error);
                },
            };
            let ghost table = rows(records@);
            let mut out: Vec<csv::StringRecord> = Vec::new();
            out.push(record_of(copied(names)));
            assert(rows(out@) =~= seq![texts(names@)] + projections(
                table,
                indices@,
                complete(table, indices@, 1),
            ));
            let mut i: usize = 1;
            while i < records.len()
                invariant
                    1 <= i <= records.len(),
                    table == rows(records@),
                    rows(out@) == seq![texts(names@)] + projections(
                        table,
                        indices@,
                        complete(table, indices@, i as nat),
                    ),
                    log@ == old(log)@ + complaints(table, indices@, i as nat),
                decreases records.len() - i,
            {
                let ghost before = complete(table, indices@, i as nat);
                let ghost said = complaints(table, indices@, i as nat);
                match apply(&indices, &records[i]) {
                    Ok(cut) => {
                        assert(rows(out@.push(cut)) =~= rows(out@).push(fields(cut)));
                        assert(projections(table, indices@, before.push(i)) =~= projections(
                            table,
                            indices@,
                            before,
                        ).push(fields(cut)));
                        assert(seq![texts(names@)] + projections(table, indices@, before).push(
                            fields(cut),
                        ) =~= (seq![texts(names@)] + projections(table, indices@, before)).push(
                            fields(cut),
                        ));
                        out.push(cut);
                    },
                    Err(column) => {
                        assert(old(log)@ + said.push(Diagnostic { row: i, column }) == (old(log)@
                            + said).push(Diagnostic { row: i, column }));
                        log.push(Diagnostic { row: i, column });
                    },
                }
                i += 1;
            }
            Ok(out)
        },
    }
}

} // verus!
