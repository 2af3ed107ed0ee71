//! What the stages share: the header of a table, the columns that a name
//! refers to, and the rows that lack a column.
use crate::record::{duplicate, field_at, field_count, fields, rows};
use crate::text::{decimal, decimal_string, same, texts};
use vstd::prelude::*;

verus! {

/// Why a stage gave up on the whole table.
#[derive(Debug)]
pub enum RunError {
    /// The table has no record, so no header.
    EmptyStream,
    /// The header has no column of this name.
    UnknownColumn(String),
    /// A numerical sort met this field, which is no integer.
    NotNumerical(String),
}

/// What a [`RunError`] stands for.
pub enum RunFault {
    EmptyStream,
    UnknownColumn(Seq<char>),
    NotNumerical(Seq<char>),
}

impl View for RunError {
    type V = RunFault;

    open spec fn view(&self) -> RunFault {
        match self {
            RunError::EmptyStream => RunFault::EmptyStream,
            RunError::UnknownColumn(name) => RunFault::UnknownColumn(name@),
            RunError::NotNumerical(field) => RunFault::NotNumerical(field@),
        }
    }
}

impl RunFault {
    /// The error in words.
    pub open spec fn message(self) -> Seq<char> {
        match self {
            RunFault::EmptyStream => "Empty stream"@,
            RunFault::UnknownColumn(name) => "Invalid column '"@ + name + "'"@,
            RunFault::NotNumerical(field) => "Field is not numerical: '"@ + field + "'"@,
        }
    }
}

impl RunError {
    /// The error in words.
    pub fn message(&self) -> (text: String)
        ensures
            text@ == self@.message(),
    {
        match self {
            RunError::EmptyStream => String::from_str("Empty stream"),
            RunError::UnknownColumn(name) => {
                let mut text = String::from_str("Invalid column '");
                text.append(name.as_str());
                text.append("'");
                text
            },
            RunError::NotNumerical(field) => {
                let mut text = String::from_str("Field is not numerical: '");
                text.append(field.as_str());
                text.append("'");
                text
            },
        }
    }
}

/// A row that a stage left out because it has no field in a column that the
/// stage reads. `row` counts the records of the table that the stage was
/// given, the header being record 0.
#[derive(Clone, Copy, Debug, PartialEq, Eq, Structural)]
pub struct Diagnostic {
    pub row: usize,
    pub column: usize,
}

/// Whether a table is one that a machine can hold: the number of its rows,
/// and the number of fields of each, are numbers that a `usize` holds.
pub open spec fn representable(table: Seq<Seq<Seq<char>>>) -> bool {
    &&& table.len() <= usize::MAX
    &&& forall|i: int| 0 <= i < table.len() ==> (#[trigger] table[i]).len() <= usize::MAX
}

impl Diagnostic {
    /// The diagnostic in words: the row, and the column that it lacks.
    pub open spec fn words(self) -> Seq<char> {
        "Row "@ + decimal(self.row as nat) + ": Missing column "@ + decimal(self.column as nat)
    }

    /// The diagnostic in words: the row, and the column that it lacks.
    pub fn message(&self) -> (text: String)
        ensures
            text@ == self.words(),
    {
        let mut text = String::from_str("Row ");
        text.append(decimal_string(self.row).as_str());
        text.append(": Missing column ");
        text.append(decimal_string(self.column).as_str());
        text
    }
}

/// The column that `name` refers to in `header`: the last one of that name.
pub open spec fn column_index(header: Seq<Seq<char>>, name: Seq<char>) -> Option<usize>
    decreases header.len(),
{
    if header.len() == 0 {
        None
    } else if header.last() == name {
        Some((header.len() - 1) as usize)
    } else {
        column_index(header.drop_last(), name)
    }
}

/// The columns that `names` refer to in `header`, added to `found`; or the
/// first of the names that `header` does not have.
pub open spec fn column_indices(
    header: Seq<Seq<char>>,
    names: Seq<Seq<char>>,
    found: Seq<usize>,
) -> Result<Seq<usize>, RunFault>
    decreases names.len(),
{
    if names.len() == 0 {
        Ok(found)
    } else {
        match column_index(header, names.first()) {
            Some(index) => column_indices(header, names.drop_first(), found.push(index)),
            None => Err(RunFault::UnknownColumn(names.first())),
        }
    }
}

/// The first of `columns` in which `row` has no field.
pub open spec fn first_missing(row: Seq<Seq<char>>, columns: Seq<usize>) -> Option<usize>
    decreases columns.len(),
{
    if columns.len() == 0 {
        None
    } else if columns.first() >= row.len() {
        Some(columns.first())
    } else {
        first_missing(row, columns.drop_first())
    }
}

/// The data rows among the first `upto` records of `table` that have a field
/// in each of `columns`, by their place in the table and in order.
pub open spec fn complete(table: Seq<Seq<Seq<char>>>, columns: Seq<usize>, upto: nat) -> Seq<usize>
    decreases upto,
{
    if upto <= 1 {
        seq![]
    } else {
        let before = complete(table, columns, (upto - 1) as nat);
        if first_missing(table[upto - 1], columns) is None {
            before.push((upto - 1) as usize)
        } else {
            before
        }
    }
}

/// What is to be said of the data rows among the first `upto` records of
/// `table` that lack a field in one of `columns`: for each, in order, the
/// first column that it lacks.
pub open spec fn complaints(table: Seq<Seq<Seq<char>>>, columns: Seq<usize>, upto: nat) -> Seq<
    Diagnostic,
>
    decreases upto,
{
    if upto <= 1 {
        seq![]
    } else {
        let before = complaints(table, columns, (upto - 1) as nat);
        match first_missing(table[upto - 1], columns) {
            Some(column) => before.push(Diagnostic { row: (upto - 1) as usize, column }),
            None => before,
        }
    }
}

/// A row has a field in a column if and only if it lacks none of the
/// columns asked for.
pub proof fn first_missing_none(row: Seq<Seq<char>>, columns: Seq<usize>)
    ensures
        first_missing(row, columns) is None <==> forall|k: int|
            0 <= k < columns.len() ==> columns[k] < row.len(),
        first_missing(row, columns) matches Some(column) ==> column >= row.len()
            && columns.contains(column),
    decreases columns.len(),
{
    if columns.len() > 0 {
        first_missing_none(row, columns.drop_first());
        if columns.first() < row.len() {
            if first_missing(row, columns) is None {
                assert forall|k: int| 0 <= k < columns.len() implies columns[k] < row.len() by {
                    if k > 0 {
                        assert(columns[k] == columns.drop_first()[k - 1]);
                    }
                }
            } else {
                let column = first_missing(row, columns).unwrap();
                let k = choose|k: int|
                    0 <= k < columns.drop_first().len() && columns.drop_first()[k] == column;
                assert(columns[k + 1] == column);
            }
        } else {
            assert(columns[0] == columns.first());
        }
    }
}

/// The column that a name refers to holds that name, and no later column
/// does; a name refers to no column only where the header does not hold it.
pub proof fn column_index_found(header: Seq<Seq<char>>, name: Seq<char>)
    requires
        header.len() <= usize::MAX,
    ensures
        match column_index(header, name) {
            Some(column) => column < header.len() && header[column as int] == name && forall|
                j: int,
            |
                column < j < header.len() ==> header[j] != name,
            None => !header.contains(name),
        },
    decreases header.len(),
{
    if header.len() > 0 && header.last() != name {
        column_index_found(header.drop_last(), name);
        match column_index(header, name) {
            Some(column) => {
                assert(header.drop_last()[column as int] == header[column as int]);
                assert forall|j: int| column < j < header.len() implies header[j] != name by {
                    if j < header.len() - 1 {
                        assert(header.drop_last()[j] == header[j]);
                    }
                }
            },
            None => {
                assert forall|j: int| 0 <= j < header.len() implies header[j] != name by {
                    if j < header.len() - 1 {
                        assert(header.drop_last()[j] == header[j]);
                    }
                }
            },
        }
    }
}

/// The columns that names refer to are found name by name: where the header
/// has every name, the outcome holds `found` and then, for each name in
/// order, the column that it refers to.
pub proof fn column_indices_found(
    header: Seq<Seq<char>>,
    names: Seq<Seq<char>>,
    found: Seq<usize>,
)
    ensures
        match column_indices(header, names, found) {
            Ok(indices) => {
                &&& indices.len() == found.len() + names.len()
                &&& forall|k: int| 0 <= k < found.len() ==> indices[k] == found[k]
                &&& forall|j: int|
                    0 <= j < names.len() ==> column_index(header, #[trigger] names[j]) == Some(
                        indices[found.len() + j],
                    )
            },
            Err(_) => exists|j: int|
                0 <= j < names.len() && column_index(header, #[trigger] names[j]) is None,
        },
    decreases names.len(),
{
    if names.len() > 0 {
        match column_index(header, names.first()) {
            Some(index) => {
                column_indices_found(header, names.drop_first(), found.push(index));
                match column_indices(header, names, found) {
                    Ok(indices) => {
                        assert(indices[found.len() as int] == found.push(index)[found.len() as int]);
                        assert forall|j: int| 0 <= j < names.len() implies column_index(
                            header,
                            #[trigger] names[j],
                        ) == Some(indices[found.len() + j]) by {
                            if j > 0 {
                                assert(names.drop_first()[j - 1] == names[j]);
                            }
                        }
                        assert forall|k: int| 0 <= k < found.len() implies indices[k]
                            == found[k] by {
                            assert(found.push(index)[k] == found[k]);
                        }
                    },
                    Err(_) => {
                        let j = choose|j: int|
                            0 <= j < names.drop_first().len() && column_index(
                                header,
                                #[trigger] names.drop_first()[j],
                            ) is None;
                        assert(names[j + 1] == names.drop_first()[j]);
                    },
                }
            },
            None => {
                assert(names[0] == names.first());
            },
        }
    }
}

/// Where every data row among the first `upto` records has every column,
/// all of them are complete and there is nothing to say.
pub proof fn complete_all(table: Seq<Seq<Seq<char>>>, columns: Seq<usize>, upto: nat)
    requires
        1 <= upto <= table.len() <= usize::MAX,
        forall|i: int| 1 <= i < upto ==> first_missing(#[trigger] table[i], columns) is None,
    ensures
        complete(table, columns, upto) == Seq::new((upto - 1) as nat, |k: int| (k + 1) as usize),
        complaints(table, columns, upto) == Seq::<Diagnostic>::empty(),
    decreases upto,
{
    if upto > 1 {
        complete_all(table, columns, (upto - 1) as nat);
        assert(first_missing(table[upto - 1], columns) is None);
        assert(complete(table, columns, upto) =~= Seq::new(
            (upto - 1) as nat,
            |k: int| (k + 1) as usize,
        ));
    } else {
        assert(complete(table, columns, upto) =~= Seq::new(
            (upto - 1) as nat,
            |k: int| (k + 1) as usize,
        ));
    }
}

/// Where a single column is asked for, a row lacks it or lacks nothing.
pub proof fn first_missing_one(row: Seq<Seq<char>>, column: usize)
    ensures
        first_missing(row, seq![column]) == if column >= row.len() {
            Some(column)
        } else {
            None
        },
{
    assert(seq![column].drop_first() =~= seq![]);
    assert(first_missing(row, seq![]) is None);
}

/// The places that `complete` lists are those of data rows of the table, in
/// rising order, and each of those rows has every column.
pub proof fn complete_rows(table: Seq<Seq<Seq<char>>>, columns: Seq<usize>, upto: nat)
    requires
        upto <= table.len() <= usize::MAX,
    ensures
        complete(table, columns, upto).len() <= upto,
        upto >= 1 ==> complete(table, columns, upto).len() < upto,
        forall|k: int|
            0 <= k < complete(table, columns, upto).len() ==> {
                let place = #[trigger] complete(table, columns, upto)[k];
                &&& 1 <= place < upto
                &&& first_missing(table[place as int], columns) is None
            },
        forall|j: int, k: int|
            0 <= j < k < complete(table, columns, upto).len() ==> complete(
                table,
                columns,
                upto,
            )[j] < complete(table, columns, upto)[k],
    decreases upto,
{
    if upto > 1 {
        complete_rows(table, columns, (upto - 1) as nat);
    }
}

/// The header of a table: its first record, and the names of its columns.
/// A table without records has no header.
pub fn get_headers(records: &Vec<csv::StringRecord>) -> (header: Result<
    (csv::StringRecord, Vec<String>),
    RunError,
>)
    ensures
        match header {
            Ok((raw, names)) => records@.len() > 0 && fields(raw) == fields(records@[0])
                && texts(names@) == fields(records@[0]),
            Err(error) => records@.len() == 0 && error@ == RunFault::EmptyStream,
        },
{
    if records.len() == 0 {
        return Err(RunError::EmptyStream);
    }
    let first = &records[0];
    let count = field_count(first);
    let mut names: Vec<String> = Vec::new();
    let mut i: usize = 0;
    while i < count
        invariant
            i <= count == fields(*first).len(),
            texts(names@) == fields(*first).take(i as int),
        decreases count - i,
    {
        let name = match field_at(first, i) {
            Some(field) => String::from_str(field),
            None => String::new(),
        };
        assert(texts(names@.push(name)) =~= texts(names@).push(name@));
        assert(fields(*first).take(i + 1) =~= fields(*first).take(i as int).push(name@));
        names.push(name);
        i += 1;
    }
    assert(fields(*first).take(count as int) == fields(*first));
    Ok((duplicate(first), names))
}

/// Finds the column that `name` refers to in a header. A name that the
/// header does not have is an error that names it.
pub fn resolve(headers: &Vec<String>, name: &str) -> (outcome: Result<usize, RunError>)
    ensures
        match outcome {
            Ok(index) => column_index(texts(headers@), name@) == Some(index),
            Err(error) => column_index(texts(headers@), name@) is None && error@
                == RunFault::UnknownColumn(name@),
        },
{
    let mut i: usize = headers.len();
    assert(texts(headers@).take(i as int) == texts(headers@));
    while i > 0
        invariant
            i <= headers.len(),
            column_index(texts(headers@), name@) == column_index(
                texts(headers@).take(i as int),
                name@,
            ),
        decreases i,
    {
        assert(texts(headers@).take(i as int).drop_last() == texts(headers@).take(i - 1));
        if same(headers[i - 1].as_str(), name) {
            return Ok(i - 1);
        }
        i -= 1;
    }
    Err(RunError::UnknownColumn(String::from_str(name)))
}

/// Finds the columns that `names` refer to in a header, in the order of the
/// names. The first name that the header does not have is an error.
pub fn resolve_all(headers: &Vec<String>, names: &Vec<String>) -> (outcome: Result<
    Vec<usize>,
    RunError,
>)
    ensures
        match outcome {
            Ok(indices) => column_indices(texts(headers@), texts(names@), seq![]) == Ok::<
                Seq<usize>,
                RunFault,
            >(indices@),
            Err(error) => column_indices(texts(headers@), texts(names@), seq![]) == Err::<
                Seq<usize>,
                RunFault,
            >(error@),
        },
{
    let mut indices: Vec<usize> = Vec::new();
    let mut i: usize = 0;
    assert(texts(names@).skip(0) == texts(names@));
    while i < names.len()
        invariant
            i <= names.len(),
            column_indices(texts(headers@), texts(names@), seq![]) == column_indices(
                texts(headers@),
                texts(names@).skip(i as int),
                indices@,
            ),
        decreases names.len() - i,
    {
        assert(texts(names@).skip(i as int).drop_first() == texts(names@).skip(i + 1));
        match resolve(headers, names[i].as_str()) {
            Ok(index) => {
                indices.push(index);
            },
            Err(error) => {
                return Err(error);
            },
        }
        i += 1;
    }
    Ok(indices)
}

/// Whether `record` has a field in each of `columns`; if not, the first of
/// them that it lacks.
pub fn lacking(record: &csv::StringRecord, columns: &Vec<usize>) -> (column: Option<usize>)
    ensures
        column == first_missing(fields(*record), columns@),
{
    let count = field_count(record);
    let mut k: usize = 0;
    assert(columns@.skip(0) == columns@);
    while k < columns.len()
        invariant
            k <= columns.len(),
            count == fields(*record).len(),
            first_missing(fields(*record), columns@) == first_missing(
                fields(*record),
                columns@.skip(k as int),
            ),
        decreases columns.len() - k,
    {
        assert(columns@.skip(k as int).drop_first() == columns@.skip(k + 1));
        if columns[k] >= count {
            return Some(columns[k]);
        }
        k += 1;
    }
    None
}

/// Tells the data rows that have a field in each of `columns` from those
/// that do not: the places of the first are returned, in order, and for each
/// of the others a diagnostic is added to `log`.
pub fn sift(records: &Vec<csv::StringRecord>, columns: &Vec<usize>, log: &mut Vec<Diagnostic>) -> (kept:
    Vec<usize>)
    ensures
        kept@ == complete(rows(records@), columns@, records@.len()),
        final(log)@ == old(log)@ + complaints(rows(records@), columns@, records@.len()),
{
    let mut kept: Vec<usize> = Vec::new();
    let mut i: usize = 1;
    assert(old(log)@ + Seq::<Diagnostic>::empty() == old(log)@);
    while i < records.len()
        invariant
            1 <= i,
            i <= records.len() || i == 1,
            kept@ == complete(rows(records@), columns@, i as nat),
            log@ == old(log)@ + complaints(rows(records@), columns@, i as nat),
        decreases records.len() - i,
    {
        match lacking(&records[i], columns) {
            Some(column) => {
                let ghost before = complaints(rows(records@), columns@, i as nat);
                assert(old(log)@ + before.push(Diagnostic { row: i, column }) == (old(log)@
                    + before).push(Diagnostic { row: i, column }));
                log.push(Diagnostic { row: i, column });
            },
            None => {
                kept.push(i);
            },
        }
        i += 1;
    }
    kept
}

} // verus!
