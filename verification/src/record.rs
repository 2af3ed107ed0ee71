//! Rows of a table, held as `csv::StringRecord`.
use vstd::prelude::*;

verus! {

/// `csv::StringRecord`, one row of fields. Nothing inside it is visible to
/// the verifier; what it holds is spoken of through [`fields`].
#[verifier::external_type_specification]
#[verifier::external_body]
pub struct ExStringRecord(csv::StringRecord);

/// The fields that a record holds, in order.
pub uninterp spec fn fields(record: csv::StringRecord) -> Seq<Seq<char>>;

/// The rows of a table, each as its fields.
pub open spec fn rows(records: Seq<csv::StringRecord>) -> Seq<Seq<Seq<char>>> {
    records.map_values(|r: csv::StringRecord| fields(r))
}

/// `csv::StringRecord::len`: the number of fields in the record.
#[verifier::external_body]
pub(crate) fn field_count(record: &csv::StringRecord) -> (n: usize)
    ensures
        n == fields(*record).len(),
{
    record.len()
}

/// `csv::StringRecord::get`: the field at `index`, or `None` where the
/// record has no field there.
#[verifier::external_body]
pub(crate) fn field_at(record: &csv::StringRecord, index: usize) -> (field: Option<&str>)
    ensures
        index < fields(*record).len() ==> field is Some && field.unwrap()@ == fields(
            *record,
        )[index as int],
        index >= fields(*record).len() ==> field is None,
{
    record.get(index)
}

/// `csv::StringRecord::from` on a vector of strings: a record whose fields
/// are the strings, in order.
#[verifier::external_body]
pub(crate) fn record_of(values: Vec<String>) -> (record: csv::StringRecord)
    ensures
        fields(record) == values@.map_values(|s: String| s@),
{
    csv::StringRecord::from(values)
}

/// `csv::StringRecord::clone`: a record with the same fields.
#[verifier::external_body]
pub(crate) fn duplicate(record: &csv::StringRecord) -> (copy: csv::StringRecord)
    ensures
        fields(copy) == fields(*record),
{
    record.clone()
}

} // verus!
