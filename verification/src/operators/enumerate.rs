//! `enum`: counts how often each value of one column occurs.
use crate::operators::lib::{
    column_index,
    complaints,
    first_missing_one,
    get_headers,
    resolve,
    Diagnostic,
    RunError,
    RunFault,
};
use crate::record::{field_at, fields, record_of, rows};
use crate::text::{decimal, decimal_string, same, texts};
use vstd::prelude::*;

verus! {

/// How often `value` occurs among `values`.
pub open spec fn occurrences(values: Seq<Seq<char>>, value: Seq<char>) -> nat
    decreases values.len(),
{
    if values.len() == 0 {
        0
    } else {
        occurrences(values.drop_last(), value) + if values.last() == value {
            1nat
        } else {
            0nat
        }
    }
}

/// The values that occur among `values`, each once, in the order in which
/// they first occur.
pub open spec fn distinct(values: Seq<Seq<char>>) -> Seq<Seq<char>>
    decreases values.len(),
{
    if values.len() == 0 {
        seq![]
    } else {
        let before = distinct(values.drop_last());
        if before.contains(values.last()) {
            before
        } else {
            before.push(values.last())
        }
    }
}

/// The test that a row passes if it has a field in `column`.
pub open spec fn has_field(column: usize) -> spec_fn(Seq<Seq<char>>) -> bool {
    |row: Seq<Seq<char>>| column < row.len()
}

/// The fields in `column` of those of `rows` that have one, in order.
pub open spec fn column_values(rows: Seq<Seq<Seq<char>>>, column: usize) -> Seq<Seq<char>> {
    rows.filter(has_field(column)).map_values(|row: Seq<Seq<char>>| row[column as int])
}

/// One row for each distinct value, in the order in which the values first
/// occur: how often the value occurs, in decimal, and the value.
pub open spec fn counted(values: Seq<Seq<char>>) -> Seq<Seq<Seq<char>>> {
    distinct(values).map_values(
        |value: Seq<char>| seq![decimal(occurrences(values, value)), value],
    )
}

/// What `enum` makes of a table: the header `count` and the name of the
/// column, and after it one row for each distinct value that the data rows
/// have in that column, with the number of rows that have it. Rows without a
/// field in the column are not counted. A table without a header is an
/// error, and so is a name that the header does not have.
pub open spec fn enumerated(table: Seq<Seq<Seq<char>>>, name: Seq<char>) -> Result<
    Seq<Seq<Seq<char>>>,
    RunFault,
> {
    if table.len() == 0 {
        Err(RunFault::EmptyStream)
    } else {
        match column_index(table[0], name) {
            Some(column) => Ok(
                seq![seq!["count"@, name]] + counted(column_values(table.skip(1), column)),
            ),
            None => Err(RunFault::UnknownColumn(name)),
        }
    }
}

/// The data rows of a table that have no field in the named column.
pub open spec fn uncounted(table: Seq<Seq<Seq<char>>>, name: Seq<char>) -> Seq<Diagnostic> {
    if table.len() == 0 {
        seq![]
    } else {
        match column_index(table[0], name) {
            Some(column) => complaints(table, seq![column], table.len()),
            None => seq![],
        }
    }
}

/// A value occurs at most as often as there are values.
pub proof fn occurrences_bound(values: Seq<Seq<char>>, value: Seq<char>)
    ensures
        occurrences(values, value) <= values.len(),
    decreases values.len(),
{
    if values.len() > 0 {
        occurrences_bound(values.drop_last(), value);
    }
}

/// No value stands twice among the distinct values, and a value that is not
/// among them occurs nowhere.
pub proof fn distinct_values(values: Seq<Seq<char>>)
    ensures
        distinct(values).no_duplicates(),
        forall|value: Seq<char>|
            !distinct(values).contains(value) ==> #[trigger] occurrences(values, value) == 0,
        forall|value: Seq<char>|
            #[trigger] distinct(values).contains(value) ==> occurrences(values, value) > 0,
    decreases values.len(),
{
    if values.len() > 0 {
        let before = distinct(values.drop_last());
        distinct_values(values.drop_last());
        assert forall|value: Seq<char>| !distinct(values).contains(value) implies occurrences(
            values,
            value,
        ) == 0 by {
            if before.contains(value) {
                let k = choose|k: int| 0 <= k < before.len() && before[k] == value;
                assert(distinct(values)[k] == value);
            }
            if values.last() == value && !before.contains(value) {
                assert(distinct(values).last() == value);
            }
        }
        assert forall|value: Seq<char>| #[trigger]
            distinct(values).contains(value) implies occurrences(values, value) > 0 by {
            let k = choose|k: int| 0 <= k < distinct(values).len() && distinct(values)[k] == value;
            if k < before.len() {
                assert(before[k] == value);
                assert(before.contains(value));
            }
        }
    }
}

/// What `enum` returns has the shape of its header: two fields in every
/// row, the first a count that is not zero, the second a value of the
/// column; and no value stands in two rows.
pub proof fn enumerated_rows_match_header(table: Seq<Seq<Seq<char>>>, name: Seq<char>)
    requires
        table.len() > 0,
        column_index(table[0], name) is Some,
    ensures
        ({
            let values = column_values(table.skip(1), column_index(table[0], name).unwrap());
            &&& enumerated(table, name) matches Ok(out)
            &&& out.len() == 1 + distinct(values).len()
            &&& out[0] == seq!["count"@, name]
            &&& forall|k: int|
                1 <= k < out.len() ==> (#[trigger] out[k]).len() == 2 && out[k][1] == distinct(
                    values,
                )[k - 1] && out[k][0] == decimal(occurrences(values, out[k][1]))
                    && occurrences(values, out[k][1]) > 0
            &&& forall|j: int, k: int| 1 <= j < k < out.len() ==> out[j][1] != out[k][1]
        }),
{
    let values = column_values(table.skip(1), column_index(table[0], name).unwrap());
    distinct_values(values);
    let out = enumerated(table, name)->Ok_0;
    assert forall|k: int| 1 <= k < out.len() implies occurrences(values, (#[trigger] out[k])[1])
        > 0 by {
        assert(distinct(values).contains(distinct(values)[k - 1]));
    }
}

/// The field of `record` in `column`; a record that has no field there is an
/// error, which holds the column.
pub fn apply(column: usize, record: &csv::StringRecord) -> (outcome: Result<String, usize>)
    ensures
        match outcome {
            Ok(value) => column < fields(*record).len() && value@ == fields(
                *record,
            )[column as int],
            Err(missing) => column >= fields(*record).len() && missing == column,
        },
{
    match field_at(record, column) {
        Some(field) => Ok(String::from_str(field)),
        None => Err(column),
    }
}

/// Whether `keys` and `counts` are the tally of `seen`: the distinct values
/// of `seen`, and how often each occurs.
pub open spec fn tallied(keys: Seq<String>, counts: Seq<usize>, seen: Seq<Seq<char>>) -> bool {
    &&& texts(keys) == distinct(seen)
    &&& counts.len() == keys.len()
    &&& forall|k: int| 0 <= k < keys.len() ==> #[trigger] counts[k] == occurrences(seen, keys[k]@)
}

fn tally(
    keys: &mut Vec<String>,
    counts: &mut Vec<usize>,
    value: String,
    Ghost(seen): Ghost<Seq<Seq<char>>>,
)
    requires
        tallied(old(keys)@, old(counts)@, seen),
        seen.len() < usize::MAX,
    ensures
        tallied(final(keys)@, final(counts)@, seen.push(value@)),
{
    let ghost after = seen.push(value@);
    proof {
        assert(after.drop_last() == seen);
        distinct_values(seen);
        occurrences_bound(seen, value@);
    }
    let mut k: usize = 0;
    while k < keys.len()
        invariant
            k <= keys.len(),
            keys@ == old(keys)@,
            counts@ == old(counts)@,
            tallied(keys@, counts@, seen),
            seen.len() < usize::MAX,
            after == seen.push(value@),
            forall|j: int| 0 <= j < k ==> keys@[j]@ != value@,
        decreases keys.len() - k,
    {
        if same(keys[k].as_str(), value.as_str()) {
            proof {
                assert(after.drop_last() == seen);
                distinct_values(seen);
                occurrences_bound(seen, value@);
                assert(texts(keys@)[k as int] == value@);
                assert(distinct(seen).contains(value@));
            }
            let count = counts[k];
            counts.set(k, count + 1);
            proof {
                assert forall|j: int| 0 <= j < keys.len() implies #[trigger] counts@[j]
                    == occurrences(after, keys@[j]@) by {
                    if j != k {
                        assert(texts(keys@)[j] == keys@[j]@);
                        assert(texts(keys@)[j] != texts(keys@)[k as int]);
                    }
                }
            }
            return ;
        }
        k += 1;
    }
    proof {
        assert(after.drop_last() == seen);
        distinct_values(seen);
        if distinct(seen).contains(value@) {
            let j = choose|j: int| 0 <= j < distinct(seen).len() && distinct(seen)[j] == value@;
            assert(texts(keys@)[j] == keys@[j]@);
        }
        assert(texts(keys@.push(value)) =~= texts(keys@).push(value@));
        assert forall|j: int| 0 <= j < keys.len() implies keys@[j]@ != value@ by {}
    }
    keys.push(value);
    counts.push(1);
}

/// Runs `enum` on a table. What it returns is [`enumerated`] of the table,
/// and for each row that has no field in the column a diagnostic is added to
/// `log`.
pub fn run(records: Vec<csv::StringRecord>, column: &str, log: &mut Vec<Diagnostic>) -> (outcome:
    Result<Vec<csv::StringRecord>, RunError>)
    ensures
        match outcome {
            Ok(table) => enumerated(rows(records@), column@) == Ok::<
                Seq<Seq<Seq<char>>>,
                RunFault,
            >(rows(table@)),
            Err(error) => enumerated(rows(records@), column@) == Err::<
                Seq<Seq<Seq<char>>>,
                RunFault,
            >(error@),
        },
        final(log)@ == old(log)@ + uncounted(rows(records@), column@),
{
    assert(old(log)@ + Seq::<Diagnostic>::empty() == old(log)@);
    let (_raw, headers) = match get_headers(&records) {
        Ok(header) => header,
        Err(error) => {
            return Err(error);
        },
    };
    let column_index = match resolve(&headers, column) {
        Ok(index) => index,
        Err(error) => {
            return Err(error);
        },
    };
    let ghost table = rows(records@);
    let mut keys: Vec<String> = Vec::new();
    let mut counts: Vec<usize> = Vec::new();
    assert(table.subrange(1, 1) =~= seq![]);
    assert(column_values(table.subrange(1, 1), column_index) =~= seq![]);
    assert(texts(keys@) =~= seq![]);
    let mut i: usize = 1;
    while i < records.len()
        invariant
            1 <= i <= records.len(),
            table == rows(records@),
            tallied(keys@, counts@, column_values(table.subrange(1, i as int), column_index)),
            column_values(table.subrange(1, i as int), column_index).len() < i,
            log@ == old(log)@ + complaints(table, seq![column_index], i as nat),
        decreases records.len() - i,
    {
        let ghost seen = table.subrange(1, i as int);
        let ghost said = complaints(table, seq![column_index], i as nat);
        proof {
            assert(table.subrange(1, i + 1) =~= seen.push(table[i as int]));
            first_missing_one(table[i as int], column_index);
            seen.lemma_filter_push(table[i as int], has_field(column_index));
            assert(table[i as int] == fields(records@[i as int]));
        }
        match apply(column_index, &records[i]) {
            Ok(value) => {
                assert(column_values(seen.push(table[i as int]), column_index)
                    =~= column_values(seen, column_index).push(value@));
                tally(&mut keys, &mut counts, value, Ghost(column_values(seen, column_index)));
            },
            Err(missing) => {
                assert(old(log)@ + said.push(Diagnostic { row: i, column: missing }) == (old(
                    log,
                )@ + said).push(Diagnostic { row: i, column: missing }));
                log.push(Diagnostic { row: i, column: missing });
            },
        }
        i += 1;
    }
    assert(table.subrange(1, records.len() as int) == table.skip(1));
    let ghost values = column_values(table.skip(1), column_index);
    let mut out: Vec<csv::StringRecord> = Vec::new();
    let mut heading: Vec<String> = Vec::new();
    heading.push(String::from_str("count"));
    heading.push(String::from_str(column));
    assert(texts(heading@) =~= seq!["count"@, column@]);
    out.push(record_of(heading));
    assert(rows(out@) =~= seq![seq!["count"@, column@]] + counted(values).take(0));
    let mut k: usize = 0;
    while k < keys.len()
        invariant
            k <= keys.len(),
            tallied(keys@, counts@, values),
            rows(out@) == seq![seq!["count"@, column@]] + counted(values).take(k as int),
        decreases keys.len() - k,
    {
        let mut pair: Vec<String> = Vec::new();
        pair.push(decimal_string(counts[k]));
        pair.push(keys[k].clone());
        let row = record_of(pair);
        proof {
            assert(texts(keys@)[k as int] == keys@[k as int]@);
            assert(texts(pair@) =~= seq![decimal(counts@[k as int] as nat), keys@[k as int]@]);
            assert(counted(values)[k as int] == fields(row));
            assert(rows(out@.push(row)) =~= rows(out@).push(fields(row)));
            assert(seq![seq!["count"@, column@]] + counted(values).take(k + 1) =~= (
            seq![seq!["count"@, column@]] + counted(values).take(k as int)).push(fields(row)));
        }
        out.push(row);
        k += 1;
    }
    assert(counted(values).take(keys.len() as int) == counted(values));
    Ok(out)
}

} // verus!
