//! `sort`: orders the data rows by one column.
use crate::ast::SortDirection;
use crate::operators::lib::{
    column_index,
    complaints,
    complete,
    complete_rows,
    first_missing_one,
    get_headers,
    resolve,
    sift,
    Diagnostic,
    RunError,
    RunFault,
};
use crate::record::{duplicate, field_at, fields, rows};
use crate::text::{
    machine_integer,
    parse_integer,
    text_before,
    text_before_asymmetric,
    text_before_total,
    text_before_transitive,
};
use vstd::prelude::*;
use vstd::relations::{sorted_by, total_ordering};
use vstd::seq_lib::lemma_sorted_unique;

verus! {

/// Each key with its place among the keys.
pub open spec fn tagged<K>(keys: Seq<K>) -> Seq<(K, int)> {
    Seq::new(keys.len(), |i: int| (keys[i], i))
}

/// The order of numbers with their places: by the number, and among equal
/// numbers by the place.
pub open spec fn number_le() -> spec_fn((int, int), (int, int)) -> bool {
    |a: (int, int), b: (int, int)| a.0 < b.0 || (a.0 == b.0 && a.1 <= b.1)
}

/// The order of strings with their places: by the string, and among equal
/// strings by the place.
pub open spec fn text_le() -> spec_fn((Seq<char>, int), (Seq<char>, int)) -> bool {
    |a: (Seq<char>, int), b: (Seq<char>, int)|
        text_before(a.0, b.0) || (a.0 == b.0 && a.1 <= b.1)
}

/// The places of the keys in rising order of the keys: first the place of
/// the least key, and of equal keys the one that stands first.
pub open spec fn ranking<K>(keys: Seq<K>, le: spec_fn((K, int), (K, int)) -> bool) -> Seq<int> {
    tagged(keys).sort_by(le).map_values(|t: (K, int)| t.1)
}

/// The rows of `table` that stand at `places`, taken in the given order of
/// those places.
pub open spec fn arranged(table: Seq<Seq<Seq<char>>>, places: Seq<usize>, order: Seq<int>) -> Seq<
    Seq<Seq<char>>,
> {
    Seq::new(order.len(), |k: int| table[places[order[k]] as int])
}

/// Rows in the given direction: descending is ascending read backwards.
pub open spec fn directed(ascending: Seq<Seq<Seq<char>>>, direction: SortDirection) -> Seq<
    Seq<Seq<char>>,
> {
    match direction {
        SortDirection::Ascending => ascending,
        SortDirection::Descending => ascending.reverse(),
    }
}

/// The first of `keys` that is no integer which an `isize` holds.
pub open spec fn first_unreadable(keys: Seq<Seq<char>>) -> Option<Seq<char>>
    decreases keys.len(),
{
    if keys.len() == 0 {
        None
    } else if machine_integer(keys.first()) is None {
        Some(keys.first())
    } else {
        first_unreadable(keys.drop_first())
    }
}

/// The integers that `keys` write.
pub open spec fn readings(keys: Seq<Seq<char>>) -> Seq<int> {
    keys.map_values(|key: Seq<char>| machine_integer(key).unwrap() as int)
}

/// The fields in `column` of the rows of `table` at `places`.
pub open spec fn keys_at(table: Seq<Seq<Seq<char>>>, places: Seq<usize>, column: usize) -> Seq<
    Seq<char>,
> {
    places.map_values(|place: usize| table[place as int][column as int])
}

/// What `sort` makes of a table: the header, and after it the data rows that
/// have a field in the named column, ordered by that field. A textual sort
/// orders the fields as strings; a numerical sort reads each as a signed
/// integer and orders the integers. Rows with equal fields keep the order in
/// which they stood. Descending is the ascending order read backwards. A
/// table without a header is an error, so is a name that the header does not
/// have, and so is, in a numerical sort, the first field that is no integer.
pub open spec fn sorted(
    table: Seq<Seq<Seq<char>>>,
    name: Seq<char>,
    numeric: bool,
    direction: SortDirection,
) -> Result<Seq<Seq<Seq<char>>>, RunFault> {
    if table.len() == 0 {
        Err(RunFault::EmptyStream)
    } else {
        match column_index(table[0], name) {
            Some(column) => {
                let places = complete(table, seq![column], table.len());
                let keys = keys_at(table, places, column);
                if !numeric {
                    Ok(
                        seq![table[0]] + directed(
                            arranged(table, places, ranking(keys, text_le())),
                            direction,
                        ),
                    )
                } else {
                    match first_unreadable(keys) {
                        Some(field) => Err(RunFault::NotNumerical(field)),
                        None => Ok(
                            seq![table[0]] + directed(
                                arranged(table, places, ranking(readings(keys), number_le())),
                                direction,
                            ),
                        ),
                    }
                }
            },
            None => Err(RunFault::UnknownColumn(name)),
        }
    }
}

/// The data rows of a table that have no field in the named column.
pub open spec fn unsorted(table: Seq<Seq<Seq<char>>>, name: Seq<char>) -> Seq<Diagnostic> {
    if table.len() == 0 {
        seq![]
    } else {
        match column_index(table[0], name) {
            Some(column) => complaints(table, seq![column], table.len()),
            None => seq![],
        }
    }
}

/// The order of numbers with their places is a total order.
pub proof fn number_le_total()
    ensures
        total_ordering(number_le()),
{
    let le = number_le();
    assert forall|x: (int, int), y: (int, int)| #[trigger] le(x, y) && #[trigger] le(y, x) implies x
        == y by {}
}

/// The order of strings with their places is a total order.
pub proof fn text_le_total()
    ensures
        total_ordering(text_le()),
{
    let le = text_le();
    assert forall|x: (Seq<char>, int)| #[trigger] le(x, x) by {}
    assert forall|x: (Seq<char>, int), y: (Seq<char>, int)| #[trigger] le(x, y) && #[trigger] le(
        y,
        x,
    ) implies x == y by {
        text_before_asymmetric(x.0, y.0);
        text_before_asymmetric(y.0, x.0);
    }
    assert forall|x: (Seq<char>, int), y: (Seq<char>, int), z: (Seq<char>, int)| #[trigger]
        le(x, y) && #[trigger] le(y, z) implies le(x, z) by {
        if text_before(x.0, y.0) && text_before(y.0, z.0) {
            text_before_transitive(x.0, y.0, z.0);
        }
    }
    assert forall|x: (Seq<char>, int), y: (Seq<char>, int)| #[trigger] le(x, y) || #[trigger] le(
        y,
        x,
    ) by {
        text_before_total(x.0, y.0);
    }
}

/// A ranking of keys holds each place among the keys once: it has as many
/// entries as there are keys, and each is a place among them.
pub proof fn ranking_places<K>(keys: Seq<K>, le: spec_fn((K, int), (K, int)) -> bool)
    requires
        total_ordering(le),
    ensures
        ranking(keys, le).len() == keys.len(),
        forall|k: int|
            0 <= k < keys.len() ==> 0 <= #[trigger] ranking(keys, le)[k] < keys.len(),
{
    broadcast use vstd::seq_lib::group_to_multiset_ensures;

    let before = tagged(keys);
    let after = before.sort_by(le);
    before.lemma_sort_by_ensures(le);
    assert(after.len() == before.len()) by {
        assert(after.to_multiset().len() == before.to_multiset().len());
    }
    assert forall|k: int| 0 <= k < keys.len() implies 0 <= #[trigger] ranking(keys, le)[k]
        < keys.len() by {
        assert(after.contains(after[k]));
        assert(before.contains(after[k]));
        let j = choose|j: int| 0 <= j < before.len() && before[j] == after[k];
        assert(after[k].1 == j);
    }
}

/// A sequence that holds the tagged keys in the order `le` is their sorted
/// sequence.
pub proof fn sorted_is_ranking<K>(
    keys: Seq<K>,
    le: spec_fn((K, int), (K, int)) -> bool,
    after: Seq<(K, int)>,
)
    requires
        total_ordering(le),
        after.to_multiset() == tagged(keys).to_multiset(),
        sorted_by(after, le),
    ensures
        after == tagged(keys).sort_by(le),
{
    tagged(keys).lemma_sort_by_ensures(le);
    lemma_sorted_unique(after, tagged(keys).sort_by(le), le);
}

/// A descending sort returns the rows of the ascending sort in reverse, under
/// the same header; and it fails where the ascending sort fails, with the
/// same error.
pub proof fn descending_is_reverse_of_ascending(
    table: Seq<Seq<Seq<char>>>,
    name: Seq<char>,
    numeric: bool,
)
    ensures
        match sorted(table, name, numeric, SortDirection::Ascending) {
            Ok(ascending) => ascending.len() > 0 && sorted(
                table,
                name,
                numeric,
                SortDirection::Descending,
            ) == Ok::<Seq<Seq<Seq<char>>>, RunFault>(
                seq![ascending[0]] + ascending.skip(1).reverse(),
            ),
            Err(fault) => sorted(table, name, numeric, SortDirection::Descending) == Err::<
                Seq<Seq<Seq<char>>>,
                RunFault,
            >(fault),
        },
{
    match sorted(table, name, numeric, SortDirection::Ascending) {
        Ok(ascending) => {
            let data = ascending.skip(1);
            assert(ascending =~= seq![ascending[0]] + data);
            let column = column_index(table[0], name).unwrap();
            let places = complete(table, seq![column], table.len());
            let keys = keys_at(table, places, column);
            let rows = if numeric {
                arranged(table, places, ranking(readings(keys), number_le()))
            } else {
                arranged(table, places, ranking(keys, text_le()))
            };
            assert(data =~= rows);
        },
        Err(_) => {},
    }
}

/// What an ascending sort returns after the header are rows of the table,
/// each row that has the column once and no other: the row at place `k` of
/// the result is the row that stands at place `order[k]` among the rows that
/// have the column, and `order` holds each of those places once. In a textual
/// sort, of two rows of the result the later never has the field that comes
/// before, and of two rows with the same field the one that stood first in
/// the table comes first.
pub proof fn textual_sort_orders(table: Seq<Seq<Seq<char>>>, name: Seq<char>) -> (order: Seq<int>)
    requires
        table.len() > 0,
        column_index(table[0], name) is Some,
    ensures
        ({
            let column = column_index(table[0], name).unwrap();
            let places = complete(table, seq![column], table.len());
            let keys = keys_at(table, places, column);
            &&& sorted(table, name, false, SortDirection::Ascending) == Ok::<
                Seq<Seq<Seq<char>>>,
                RunFault,
            >(seq![table[0]] + arranged(table, places, order))
            &&& order.len() == places.len()
            &&& order.no_duplicates()
            &&& forall|k: int| 0 <= k < order.len() ==> 0 <= #[trigger] order[k] < places.len()
            &&& forall|j: int, k: int|
                0 <= j < k < order.len() ==> !text_before(
                    #[trigger] keys[order[k]],
                    #[trigger] keys[order[j]],
                )
            &&& forall|j: int, k: int|
                0 <= j < k < order.len() && #[trigger] keys[order[j]] == #[trigger] keys[order[k]]
                    ==> order[j] < order[k]
        }),
{
    let column = column_index(table[0], name).unwrap();
    let places = complete(table, seq![column], table.len());
    let keys = keys_at(table, places, column);
    let order = ranking(keys, text_le());
    text_le_total();
    ranking_places(keys, text_le());
    ranking_is_ordered(keys, text_le());
    let le = text_le();
    assert forall|j: int, k: int| 0 <= j < k < order.len() implies !text_before(
        #[trigger] keys[order[k]],
        #[trigger] keys[order[j]],
    ) by {
        assert(le((keys[order[j]], order[j]), (keys[order[k]], order[k])));
        text_before_asymmetric(keys[order[k]], keys[order[j]]);
    }
    assert forall|j: int, k: int|
        0 <= j < k < order.len() && #[trigger] keys[order[j]] == #[trigger] keys[order[k]]
            implies order[j] < order[k] by {
        assert(le((keys[order[j]], order[j]), (keys[order[k]], order[k])));
        text_before_asymmetric(keys[order[k]], keys[order[j]]);
    }
    order
}

/// What is said of a textual sort in [`textual_sort_orders`] holds of a
/// numerical sort with the integers that the fields write: wherever every
/// field is an integer, of two rows of the result the later never has the
/// smaller integer, and of two rows with the same integer the one that stood
/// first in the table comes first.
pub proof fn numerical_sort_orders(table: Seq<Seq<Seq<char>>>, name: Seq<char>) -> (order: Seq<int>)
    requires
        table.len() > 0,
        column_index(table[0], name) is Some,
        first_unreadable(
            keys_at(
                table,
                complete(table, seq![column_index(table[0], name).unwrap()], table.len()),
                column_index(table[0], name).unwrap(),
            ),
        ) is None,
    ensures
        ({
            let column = column_index(table[0], name).unwrap();
            let places = complete(table, seq![column], table.len());
            let numbers = readings(keys_at(table, places, column));
            &&& sorted(table, name, true, SortDirection::Ascending) == Ok::<
                Seq<Seq<Seq<char>>>,
                RunFault,
            >(seq![table[0]] + arranged(table, places, order))
            &&& order.len() == places.len()
            &&& order.no_duplicates()
            &&& forall|k: int| 0 <= k < order.len() ==> 0 <= #[trigger] order[k] < places.len()
            &&& forall|j: int, k: int|
                0 <= j < k < order.len() ==> #[trigger] numbers[order[j]] <= #[trigger] numbers[order[k]]
            &&& forall|j: int, k: int|
                0 <= j < k < order.len() && #[trigger] numbers[order[j]]
                    == #[trigger] numbers[order[k]] ==> order[j] < order[k]
        }),
{
    let column = column_index(table[0], name).unwrap();
    let places = complete(table, seq![column], table.len());
    let numbers = readings(keys_at(table, places, column));
    let order = ranking(numbers, number_le());
    number_le_total();
    ranking_places(numbers, number_le());
    ranking_is_ordered(numbers, number_le());
    let le = number_le();
    assert forall|j: int, k: int| 0 <= j < k < order.len() implies #[trigger] numbers[order[j]]
        <= #[trigger] numbers[order[k]] && (numbers[order[j]] == numbers[order[k]] ==> order[j]
        < order[k]) by {
        assert(le((numbers[order[j]], order[j]), (numbers[order[k]], order[k])));
    }
    order
}

/// In a ranking the tagged keys stand in the order `le`, each once.
pub proof fn ranking_is_ordered<K>(keys: Seq<K>, le: spec_fn((K, int), (K, int)) -> bool)
    requires
        total_ordering(le),
    ensures
        ranking(keys, le).no_duplicates(),
        forall|j: int, k: int|
            0 <= j < k < ranking(keys, le).len() ==> #[trigger] ranking(keys, le)[j] != #[trigger] ranking(keys, le)[k]
                && le(
                (keys[ranking(keys, le)[j]], ranking(keys, le)[j]),
                (keys[ranking(keys, le)[k]], ranking(keys, le)[k]),
            ),
{
    broadcast use vstd::seq_lib::group_to_multiset_ensures;

    let before = tagged(keys);
    let after = before.sort_by(le);
    let order = ranking(keys, le);
    before.lemma_sort_by_ensures(le);
    ranking_places(keys, le);
    assert forall|k: int| 0 <= k < after.len() implies #[trigger] after[k] == (
        keys[order[k]],
        order[k],
    ) by {
        assert(after.contains(after[k]));
        assert(before.contains(after[k]));
        let j = choose|j: int| 0 <= j < before.len() && before[j] == after[k];
        assert(after[k].1 == j);
    }
    assert forall|j: int, k: int| 0 <= j < k < order.len() implies #[trigger] order[j]
        != #[trigger] order[k] && le((keys[order[j]], order[j]), (keys[order[k]], order[k])) by {
        assert(le(after[j], after[k]));
        if order[j] == order[k] {
            // The same pair would stand twice among the sorted pairs, and it
            // stands once among the tagged keys.
            let pair = after[j];
            assert(after[k] == pair);
            assert(before.to_multiset().count(pair) == after.to_multiset().count(pair));
            tagged_once(keys, order[j]);
            twice(after, j, k);
        }
    }
}

proof fn tagged_once<K>(keys: Seq<K>, place: int)
    requires
        0 <= place < keys.len(),
    ensures
        tagged(keys).to_multiset().count((keys[place], place)) == 1,
{
    broadcast use vstd::seq_lib::group_to_multiset_ensures;

    let s = tagged(keys);
    assert(s.no_duplicates());
    s.lemma_multiset_has_no_duplicates();
    assert(s[place] == (keys[place], place));
    assert(s.contains((keys[place], place)));
}

proof fn twice<A>(s: Seq<A>, j: int, k: int)
    requires
        0 <= j < k < s.len(),
        s[j] == s[k],
    ensures
        s.to_multiset().count(s[j]) >= 2,
    decreases s.len(),
{
    broadcast use vstd::seq_lib::group_to_multiset_ensures;

    let last = s.last();
    let front = s.drop_last();
    assert(s =~= front.push(last));
    if k == s.len() - 1 {
        assert(front.contains(s[j])) by {
            assert(front[j] == s[j]);
        }
    } else {
        assert(front[j] == front[k]);
        twice(front, j, k);
    }
}

/// The numbers of `items` with their places, as mathematical integers.
pub open spec fn numbered(items: Seq<(isize, usize)>) -> Seq<(int, int)> {
    items.map_values(|item: (isize, usize)| (item.0 as int, item.1 as int))
}

/// The strings of `items` with their places.
pub open spec fn lettered(items: Seq<(String, usize)>) -> Seq<(Seq<char>, int)> {
    items.map_values(|item: (String, usize)| (item.0@, item.1 as int))
}

/// `slice::sort` on pairs of an integer and a place: afterwards the vector
/// holds the same pairs, in rising order; pairs are ordered by the integer,
/// and those with equal integers by the place.
#[verifier::external_body]
fn sort_numbers(items: &mut Vec<(isize, usize)>)
    ensures
        numbered(final(items)@).to_multiset() == numbered(old(items)@).to_multiset(),
        sorted_by(numbered(final(items)@), number_le()),
{
    items.sort();
}

/// `slice::sort` on pairs of a string and a place: afterwards the vector
/// holds the same pairs, in rising order; pairs are ordered by the string,
/// and those with equal strings by the place. Strings are ordered by their
/// bytes, which is the order of their code points.
#[verifier::external_body]
fn sort_strings(items: &mut Vec<(String, usize)>)
    ensures
        lettered(final(items)@).to_multiset() == lettered(old(items)@).to_multiset(),
        sorted_by(lettered(final(items)@), text_le()),
{
    items.sort();
}

fn rank_numbers(keys: &Vec<isize>) -> (order: Vec<usize>)
    ensures
        order@.map_values(|place: usize| place as int) == ranking(
            keys@.map_values(|key: isize| key as int),
            number_le(),
        ),
{
    let ghost wanted = tagged(keys@.map_values(|key: isize| key as int));
    let mut items: Vec<(isize, usize)> = Vec::new();
    let mut i: usize = 0;
    while i < keys.len()
        invariant
            i <= keys.len(),
            wanted == tagged(keys@.map_values(|key: isize| key as int)),
            numbered(items@) == wanted.take(i as int),
        decreases keys.len() - i,
    {
        assert(numbered(items@.push((keys@[i as int], i))) =~= numbered(items@).push(
            (keys@[i as int] as int, i as int),
        ));
        assert(wanted.take(i + 1) =~= wanted.take(i as int).push(
            (keys@[i as int] as int, i as int),
        ));
        items.push((keys[i], i));
        i += 1;
    }
    assert(wanted.take(keys.len() as int) == wanted);
    sort_numbers(&mut items);
    proof {
        number_le_total();
        sorted_is_ranking(keys@.map_values(|key: isize| key as int), number_le(), numbered(items@));
    }
    let mut order: Vec<usize> = Vec::new();
    let mut k: usize = 0;
    while k < items.len()
        invariant
            k <= items.len(),
            order@.map_values(|place: usize| place as int) == numbered(items@).map_values(
                |t: (int, int)| t.1,
            ).take(k as int),
        decreases items.len() - k,
    {
        let place = items[k].1;
        assert(order@.push(place).map_values(|place: usize| place as int) =~= order@.map_values(
            |place: usize| place as int,
        ).push(place as int));
        assert(numbered(items@).map_values(|t: (int, int)| t.1).take(k + 1) =~= numbered(
            items@,
        ).map_values(|t: (int, int)| t.1).take(k as int).push(place as int));
        order.push(place);
        k += 1;
    }
    assert(numbered(items@).map_values(|t: (int, int)| t.1).take(items.len() as int) == numbered(
        items@,
    ).map_values(|t: (int, int)| t.1));
    order
}

fn rank_strings(keys: Vec<String>) -> (order: Vec<usize>)
    ensures
        order@.map_values(|place: usize| place as int) == ranking(
            keys@.map_values(|key: String| key@),
            text_le(),
        ),
{
    let ghost texts = keys@.map_values(|key: String| key@);
    let ghost wanted = tagged(texts);
    let mut keys = keys;
    let mut items: Vec<(String, usize)> = Vec::new();
    let mut i: usize = keys.len();
    assert(wanted.skip(i as int) =~= seq![]);
    assert(lettered(items@) =~= seq![]);
    // The keys are taken from the back, so the pairs are made in reverse.
    while i > 0
        invariant
            i == keys.len(),
            keys@.map_values(|key: String| key@) == texts.take(i as int),
            wanted == tagged(texts),
            lettered(items@).len() == texts.len() - i,
            forall|k: int|
                0 <= k < lettered(items@).len() ==> lettered(items@)[k] == wanted[texts.len() - 1
                    - k],
        decreases i,
    {
        let key = keys.pop().unwrap();
        i -= 1;
        proof {
            assert(keys@.map_values(|key: String| key@) =~= texts.take(i as int));
            assert(texts.take(i + 1)[i as int] == key@);
            assert(lettered(items@.push((key, i))) =~= lettered(items@).push((key@, i as int)));
        }
        items.push((key, i));
    }
    proof {
        broadcast use vstd::seq_lib::group_to_multiset_ensures;

        let made = lettered(items@);
        assert(made =~= wanted.reverse());
        wanted.lemma_reverse_to_multiset();
    }
    sort_strings(&mut items);
    proof {
        text_le_total();
        sorted_is_ranking(texts, text_le(), lettered(items@));
    }
    let mut order: Vec<usize> = Vec::new();
    let mut k: usize = 0;
    while k < items.len()
        invariant
            k <= items.len(),
            order@.map_values(|place: usize| place as int) == lettered(items@).map_values(
                |t: (Seq<char>, int)| t.1,
            ).take(k as int),
        decreases items.len() - k,
    {
        let place = items[k].1;
        assert(order@.push(place).map_values(|place: usize| place as int) =~= order@.map_values(
            |place: usize| place as int,
        ).push(place as int));
        assert(lettered(items@).map_values(|t: (Seq<char>, int)| t.1).take(k + 1) =~= lettered(
            items@,
        ).map_values(|t: (Seq<char>, int)| t.1).take(k as int).push(place as int));
        order.push(place);
        k += 1;
    }
    assert(lettered(items@).map_values(|t: (Seq<char>, int)| t.1).take(items.len() as int)
        == lettered(items@).map_values(|t: (Seq<char>, int)| t.1));
    order
}

fn arrange(
    records: &Vec<csv::StringRecord>,
    header: csv::StringRecord,
    places: &Vec<usize>,
    order: &Vec<usize>,
    direction: SortDirection,
) -> (table: Vec<csv::StringRecord>)
    requires
        forall|j: int| 0 <= j < places@.len() ==> #[trigger] places@[j] < records@.len(),
        forall|k: int| 0 <= k < order@.len() ==> #[trigger] order@[k] < places@.len(),
    ensures
        rows(table@) == seq![fields(header)] + directed(
            arranged(rows(records@), places@, order@.map_values(|place: usize| place as int)),
            direction,
        ),
{
    let ghost ranks = order@.map_values(|place: usize| place as int);
    let ghost ascending = arranged(rows(records@), places@, ranks);
    let ghost wanted = directed(ascending, direction);
    let count = order.len();
    let mut table: Vec<csv::StringRecord> = Vec::new();
    table.push(header);
    assert(rows(table@) =~= seq![fields(header)] + wanted.take(0));
    let mut k: usize = 0;
    while k < count
        invariant
            k <= count == order.len(),
            forall|j: int| 0 <= j < places@.len() ==> #[trigger] places@[j] < records@.len(),
            forall|k: int| 0 <= k < order@.len() ==> #[trigger] order@[k] < places@.len(),
            ranks == order@.map_values(|place: usize| place as int),
            ascending == arranged(rows(records@), places@, ranks),
            wanted == directed(ascending, direction),
            wanted.len() == count,
            rows(table@) == seq![fields(header)] + wanted.take(k as int),
        decreases count - k,
    {
        let from = match direction {
            SortDirection::Ascending => k,
            SortDirection::Descending => count - 1 - k,
        };
        let place = places[order[from]];
        let row = duplicate(&records[place]);
        proof {
            assert(ranks[from as int] == order@[from as int]);
            assert(ascending[from as int] == fields(row));
            assert(wanted[k as int] == fields(row));
            assert(rows(table@.push(row)) =~= rows(table@).push(fields(row)));
            assert(seq![fields(header)] + wanted.take(k + 1) =~= (seq![fields(header)]
                + wanted.take(k as int)).push(fields(row)));
        }
        table.push(row);
        k += 1;
    }
    assert(wanted.take(count as int) == wanted);
    table
}

/// Runs `sort` on a table. What it returns is [`sorted`] of the table, and
/// for each row that has no field in the column a diagnostic is added to
/// `log`.
pub fn run(
    records: Vec<csv::StringRecord>,
    column: &str,
    is_numerical: bool,
    direction: SortDirection,
    log: &mut Vec<Diagnostic>,
) -> (outcome: Result<Vec<csv::StringRecord>, RunError>)
    ensures
        match outcome {
            Ok(table) => sorted(rows(records@), column@, is_numerical, direction) == Ok::<
                Seq<Seq<Seq<char>>>,
                RunFault,
            >(rows(table@)),
            Err(error) => sorted(rows(records@), column@, is_numerical, direction) == Err::<
                Seq<Seq<Seq<char>>>,
                RunFault,
            >(error@),
        },
        final(log)@ == old(log)@ + match sorted(
            rows(records@),
            column@,
            is_numerical,
            direction,
        ) {
            Err(RunFault::NotNumerical(_)) => seq![],
            _ => unsorted(rows(records@), column@),
        },
{
    assert(old(log)@ + Seq::<Diagnostic>::empty() == old(log)@);
    let (raw_headers, headers) = match get_headers(&records) {
        Ok(header) => header,
        Err(error) => {
            return Err(error);
        },
    };
    let column_index = match resolve(&headers, column) {
        Ok(index) => index,
        Err(error) => {
            return Err(error);
        },
    };
    let ghost table = rows(records@);
    let mut columns: Vec<usize> = Vec::new();
    columns.push(column_index);
    assert(columns@ =~= seq![column_index]);
    let mut dropped: Vec<Diagnostic> = Vec::new();
    let places = sift(&records, &columns, &mut dropped);
    assert(dropped@ =~= complaints(table, columns@, records@.len()));
    proof {
        assert(table.len() == records.len());
        complete_rows(table, columns@, records@.len());
        assert forall|j: int| 0 <= j < places@.len() implies column_index < table[places@[j] as int].len() by {
            first_missing_one(table[places@[j] as int], column_index);
        }
    }
    let ghost keys = keys_at(table, places@, column_index);
    let mut texts: Vec<String> = Vec::new();
    let mut numbers: Vec<isize> = Vec::new();
    let mut j: usize = 0;
    assert(keys.skip(0) == keys);
    while j < places.len()
        invariant
            j <= places.len(),
            table == rows(records@),
            keys == keys_at(table, places@, column_index),
            forall|j: int|
                0 <= j < places@.len() ==> #[trigger] places@[j] < records@.len() && column_index
                    < table[places@[j] as int].len(),
            is_numerical ==> first_unreadable(keys) == first_unreadable(keys.skip(j as int)),
            table.len() > 0,
            crate::operators::lib::column_index(table[0], column@) == Some(column_index),
            places@ == complete(table, seq![column_index], table.len()),
            texts@.map_values(|key: String| key@) == keys.take(j as int),
            is_numerical ==> numbers@.map_values(|key: isize| key as int) == readings(keys).take(
                j as int,
            ),
        decreases places.len() - j,
    {
        let record = &records[places[j]];
        let text = match field_at(record, column_index) {
            Some(field) => String::from_str(field),
            None => String::new(),
        };
        proof {
            assert(fields(*record) == table[places@[j as int] as int]);
            assert(keys[j as int] == text@);
            assert(keys.skip(j as int).drop_first() == keys.skip(j + 1));
            assert(texts@.push(text).map_values(|key: String| key@) =~= texts@.map_values(
                |key: String| key@,
            ).push(text@));
            assert(keys.take(j + 1) =~= keys.take(j as int).push(text@));
        }
        if is_numerical {
            match parse_integer(text.as_str()) {
                Some(number) => {
                    proof {
                        assert(numbers@.push(number).map_values(|key: isize| key as int)
                            =~= numbers@.map_values(|key: isize| key as int).push(number as int));
                        assert(readings(keys).take(j + 1) =~= readings(keys).take(j as int).push(
                            number as int,
                        ));
                    }
                    numbers.push(number);
                },
                None => {
                    assert(old(log)@ + Seq::<Diagnostic>::empty() == old(log)@);
                    return Err(RunError::NotNumerical(text));
                },
            }
        }
        texts.push(text);
        j += 1;
    }
    proof {
        assert(keys.take(places.len() as int) == keys);
        assert(readings(keys).take(places.len() as int) == readings(keys));
        assert(keys.skip(places.len() as int).len() == 0);
        text_le_total();
        number_le_total();
        ranking_places(keys, text_le());
        ranking_places(readings(keys), number_le());
    }
    let order = if is_numerical {
        rank_numbers(&numbers)
    } else {
        rank_strings(texts)
    };
    let ghost ranks = order@.map_values(|place: usize| place as int);
    proof {
        assert(ranks.len() == places@.len());
        assert forall|k: int| 0 <= k < order@.len() implies #[trigger] order@[k]
            < places@.len() by {
            assert(ranks[k] == order@[k]);
        }
        assert(old(log)@ + dropped@ == old(log)@ + unsorted(table, column@));
    }
    let mut dropped = dropped;
    log.append(&mut dropped);
    Ok(arrange(&records, raw_headers, &places, &order, direction))
}

} // verus!
