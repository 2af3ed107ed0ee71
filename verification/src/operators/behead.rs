//! `behead`: drops the first record.
use crate::operators::lib::RunError;
use vstd::prelude::*;

verus! {

/// A table without its first record; a table without records stays as it is.
pub open spec fn beheaded<T>(table: Seq<T>) -> Seq<T> {
    if table.len() == 0 {
        table
    } else {
        table.drop_first()
    }
}

/// Drops the first record of whatever reaches this stage. It never fails:
/// where there is no record, none is returned.
pub fn run(records: Vec<csv::StringRecord>) -> (outcome: Result<Vec<csv::StringRecord>, RunError>)
    ensures
        outcome matches Ok(rest) && rest@ == beheaded(records@),
{
    let mut rest = records;
    if rest.len() > 0 {
        rest.remove(0);
        assert(rest@ =~= records@.drop_first());
    }
    Ok(rest)
}

} // verus!
