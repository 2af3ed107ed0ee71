use csv::StringRecord;
use dsv_util::ast::{Column, Comparison, SortDirection};
use dsv_util::operators::lib::{get_headers, lacking, resolve, resolve_all, sift, Diagnostic, RunError};
use dsv_util::operators::{comparison, enumerate, select, sort, trim};
use dsv_util::pattern::Pattern;

fn table_of(rows: &[&[&str]]) -> Vec<StringRecord> {
    rows.iter().map(|row| StringRecord::from(row.to_vec())).collect()
}

fn people() -> Vec<StringRecord> {
    table_of(&[&["name", "age"], &["amy", "30"], &["bob", "25"], &["amy", "41"]])
}

fn names_of(names: &[&str]) -> Column {
    Column::Names(names.iter().map(|name| name.to_string()).collect())
}

#[test]
fn get_headers_of_empty_stream_fails() {
    let error = get_headers(&Vec::new()).unwrap_err();
    assert!(matches!(error, RunError::EmptyStream));
    assert_eq!(error.message(), "Empty stream");
}

#[test]
fn get_headers_returns_first_record_and_names() {
    let (raw, names) = get_headers(&people()).unwrap();
    assert_eq!(raw, StringRecord::from(vec!["name", "age"]));
    assert_eq!(names, vec!["name", "age"]);
    let (raw, names) = get_headers(&table_of(&[&[]])).unwrap();
    assert_eq!(raw.len(), 0);
    assert!(names.is_empty());
}

#[test]
fn resolve_finds_the_last_column_of_a_name() {
    let headers: Vec<String> = ["a", "b", "a", "c"].iter().map(|s| s.to_string()).collect();
    assert_eq!(resolve(&headers, "a").unwrap(), 2);
    assert_eq!(resolve(&headers, "b").unwrap(), 1);
    assert_eq!(resolve(&headers, "c").unwrap(), 3);
    let error = resolve(&headers, "d").unwrap_err();
    assert!(matches!(&error, RunError::UnknownColumn(name) if name == "d"));
    assert_eq!(error.message(), "Invalid column 'd'");
}

#[test]
fn resolve_all_keeps_the_order_of_the_names() {
    let headers: Vec<String> = ["a", "b", "c"].iter().map(|s| s.to_string()).collect();
    let names: Vec<String> = ["c", "a", "c"].iter().map(|s| s.to_string()).collect();
    assert_eq!(resolve_all(&headers, &names).unwrap(), vec![2, 0, 2]);
    let names: Vec<String> = ["c", "x", "y"].iter().map(|s| s.to_string()).collect();
    assert!(matches!(resolve_all(&headers, &names), Err(RunError::UnknownColumn(name)) if name == "x"));
    assert_eq!(resolve_all(&headers, &Vec::new()).unwrap(), Vec::<usize>::new());
}

#[test]
fn lacking_names_the_first_missing_column() {
    let record = StringRecord::from(vec!["a", "b"]);
    assert_eq!(lacking(&record, &vec![1, 0]), None);
    assert_eq!(lacking(&record, &vec![0, 5, 3]), Some(5));
    assert_eq!(lacking(&record, &vec![2]), Some(2));
    assert_eq!(lacking(&record, &vec![]), None);
}

#[test]
fn sift_tells_complete_rows_from_the_others() {
    let records = table_of(&[&["a", "b"], &["1", "2"], &["3"], &["4", "5", "6"], &[]]);
    let mut log = vec![Diagnostic { row: 9, column: 9 }];
    let kept = sift(&records, &vec![1], &mut log);
    assert_eq!(kept, vec![1, 3]);
    assert_eq!(
        log,
        vec![
            Diagnostic { row: 9, column: 9 },
            Diagnostic { row: 2, column: 1 },
            Diagnostic { row: 4, column: 1 }
        ]
    );
    let mut log = Vec::new();
    assert_eq!(sift(&Vec::new(), &vec![0], &mut log), Vec::<usize>::new());
    assert!(log.is_empty());
}

#[test]
fn diagnostic_message() {
    assert_eq!(Diagnostic { row: 12, column: 3 }.message(), "Row 12: Missing column 3");
}

#[test]
fn select_all_is_identity() {
    let mut log = Vec::new();
    let records = table_of(&[&["name", "age"], &["amy", "30"], &["short"], &[], &["a", "b", "c"]]);
    let out = select::run(records.clone(), &Column::All, &mut log).unwrap();
    assert_eq!(out, records);
    assert!(log.is_empty());
}

#[test]
fn select_all_of_an_empty_stream_is_empty() {
    let mut log = Vec::new();
    assert_eq!(select::run(Vec::new(), &Column::All, &mut log).unwrap(), Vec::<StringRecord>::new());
    assert!(log.is_empty());
}

#[test]
fn select_names_on_empty_stream_fails() {
    let mut log = Vec::new();
    assert!(matches!(select::run(Vec::new(), &names_of(&["a"]), &mut log), Err(RunError::EmptyStream)));
}

#[test]
fn select_projects_in_requested_order() {
    let mut log = Vec::new();
    let records = table_of(&[&["a", "b", "c"], &["1", "2", "3"], &["4", "5", "6"]]);
    let out = select::run(records, &names_of(&["c", "a"]), &mut log).unwrap();
    assert_eq!(out, table_of(&[&["c", "a"], &["3", "1"], &["6", "4"]]));
    assert!(log.is_empty());
}

#[test]
fn select_twice_equals_select_once() {
    let mut log = Vec::new();
    let columns = names_of(&["b", "a", "b"]);
    let records = table_of(&[&["a", "b", "c"], &["1", "2", "3"], &["4"], &["7", "8", "9"]]);
    let once = select::run(records, &columns, &mut log).unwrap();
    assert_eq!(once, table_of(&[&["b", "a", "b"], &["2", "1", "2"], &["8", "7", "8"]]));
    let twice = select::run(once.clone(), &columns, &mut log).unwrap();
    assert_eq!(twice, once);
}

#[test]
fn select_unknown_column_aborts() {
    let mut log = Vec::new();
    let error = select::run(people(), &names_of(&["name", "height", "width"]), &mut log).unwrap_err();
    assert!(matches!(&error, RunError::UnknownColumn(name) if name == "height"));
    assert!(log.is_empty());
}

#[test]
fn select_drops_short_rows_and_says_so() {
    let mut log = Vec::new();
    let records = table_of(&[&["a", "b", "c"], &["1", "2", "3"], &["4"], &["5", "6"], &["7", "8", "9"]]);
    let out = select::run(records, &names_of(&["a", "c", "b"]), &mut log).unwrap();
    assert_eq!(out, table_of(&[&["a", "c", "b"], &["1", "3", "2"], &["7", "9", "8"]]));
    assert_eq!(log, vec![Diagnostic { row: 2, column: 2 }, Diagnostic { row: 3, column: 2 }]);
}

#[test]
fn select_apply_projects_one_record() {
    let record = StringRecord::from(vec!["x", "y", "z"]);
    assert_eq!(select::apply(&vec![2, 2, 0], &record), Ok(StringRecord::from(vec!["z", "z", "x"])));
    assert_eq!(select::apply(&vec![0, 3, 4], &record), Err(3));
    assert_eq!(select::apply(&vec![], &record), Ok(StringRecord::from(Vec::<String>::new())));
}

#[test]
fn select_duplicate_header_last_wins() {
    let mut log = Vec::new();
    let records = table_of(&[&["a", "a"], &["first", "second"]]);
    let out = select::run(records, &names_of(&["a"]), &mut log).unwrap();
    assert_eq!(out, table_of(&[&["a"], &["second"]]));
}

#[test]
fn where_equals_keeps_exactly_the_matching_rows() {
    let mut log = Vec::new();
    let out = comparison::run(people(), "name", &Comparison::Equals("amy".to_string()), &mut log).unwrap();
    assert_eq!(out, table_of(&[&["name", "age"], &["amy", "30"], &["amy", "41"]]));
    assert!(log.is_empty());
    let none = comparison::run(people(), "name", &Comparison::Equals("am".to_string()), &mut log).unwrap();
    assert_eq!(none, table_of(&[&["name", "age"]]));
}

#[test]
fn where_equals_is_byte_exact() {
    let mut log = Vec::new();
    let records = table_of(&[&["name"], &["amy"], &[" amy"], &["Amy"], &["amy "], &["a.y"]]);
    let out = comparison::run(records, "name", &Comparison::Equals("amy".to_string()), &mut log).unwrap();
    assert_eq!(out, table_of(&[&["name"], &["amy"]]));
    let records = table_of(&[&["name"], &["amy"], &["a.y"]]);
    let out = comparison::run(records, "name", &Comparison::Equals("a.y".to_string()), &mut log).unwrap();
    assert_eq!(out, table_of(&[&["name"], &["a.y"]]));
}

#[test]
fn where_like_matches_anywhere_in_the_field() {
    let mut log = Vec::new();
    let pattern = Comparison::Matches(Pattern::new("m+").unwrap());
    let records = table_of(&[&["name"], &["amy"], &["bob"], &["tommy"], &["mm"], &[""]]);
    let out = comparison::run(records, "name", &pattern, &mut log).unwrap();
    assert_eq!(out, table_of(&[&["name"], &["amy"], &["tommy"], &["mm"]]));
    let anchored = Comparison::Matches(Pattern::new("^a.y$").unwrap());
    let records = table_of(&[&["name"], &["amy"], &["amyx"], &["xamy"], &["a.y"]]);
    let out = comparison::run(records, "name", &anchored, &mut log).unwrap();
    assert_eq!(out, table_of(&[&["name"], &["amy"], &["a.y"]]));
}

#[test]
fn where_unknown_column_and_empty_stream() {
    let mut log = Vec::new();
    let wanted = Comparison::Equals("x".to_string());
    assert!(matches!(comparison::run(people(), "height", &wanted, &mut log), Err(RunError::UnknownColumn(name)) if name == "height"));
    assert!(matches!(comparison::run(Vec::new(), "name", &wanted, &mut log), Err(RunError::EmptyStream)));
    assert!(log.is_empty());
}

#[test]
fn where_drops_rows_without_the_field_and_says_so() {
    let mut log = Vec::new();
    let records = table_of(&[&["a", "b"], &["1", "x"], &["2"], &["3", "x"], &[]]);
    let out = comparison::run(records, "b", &Comparison::Equals("x".to_string()), &mut log).unwrap();
    assert_eq!(out, table_of(&[&["a", "b"], &["1", "x"], &["3", "x"]]));
    assert_eq!(log, vec![Diagnostic { row: 2, column: 1 }, Diagnostic { row: 4, column: 1 }]);
}

#[test]
fn where_apply_tells_rejection() {
    let record = StringRecord::from(vec!["amy", "30"]);
    assert_eq!(comparison::apply(0, &Comparison::Equals("amy".to_string()), &record), Ok(false));
    assert_eq!(comparison::apply(0, &Comparison::Equals("bob".to_string()), &record), Ok(true));
    assert_eq!(comparison::apply(1, &Comparison::Matches(Pattern::new("^3").unwrap()), &record), Ok(false));
    assert_eq!(comparison::apply(1, &Comparison::Matches(Pattern::new("^0").unwrap()), &record), Ok(true));
    assert_eq!(comparison::apply(2, &Comparison::Equals("amy".to_string()), &record), Err(2));
}

#[test]
fn enum_counts_as_a_multiset() {
    let mut log = Vec::new();
    let records = table_of(&[&["col"], &["a"], &["a"], &["b"]]);
    let out = enumerate::run(records, "col", &mut log).unwrap();
    assert_eq!(out[0], StringRecord::from(vec!["count", "col"]));
    let mut rows: Vec<Vec<String>> =
        out[1..].iter().map(|record| record.iter().map(String::from).collect()).collect();
    rows.sort();
    assert_eq!(rows, vec![vec!["1".to_string(), "b".to_string()], vec!["2".to_string(), "a".to_string()]]);
    assert_eq!(out.len(), 3);
}

#[test]
fn enum_lists_values_in_order_of_first_occurrence() {
    let mut log = Vec::new();
    let values = ["x", "y", "x", "z", "y", "x", "x", "x", "x", "x", "x", "x", "x", "x"];
    let mut records = vec![StringRecord::from(vec!["k", "v"])];
    for value in values {
        records.push(StringRecord::from(vec!["-", value]));
    }
    let out = enumerate::run(records, "v", &mut log).unwrap();
    assert_eq!(out, table_of(&[&["count", "v"], &["11", "x"], &["2", "y"], &["1", "z"]]));
}

#[test]
fn enum_skips_rows_without_the_field_and_says_so() {
    let mut log = Vec::new();
    let records = table_of(&[&["a", "b"], &["1", "x"], &["2"], &["3", "x"]]);
    let out = enumerate::run(records, "b", &mut log).unwrap();
    assert_eq!(out, table_of(&[&["count", "b"], &["2", "x"]]));
    assert_eq!(log, vec![Diagnostic { row: 2, column: 1 }]);
}

#[test]
fn enum_of_header_only_and_errors() {
    let mut log = Vec::new();
    let out = enumerate::run(table_of(&[&["a"]]), "a", &mut log).unwrap();
    assert_eq!(out, table_of(&[&["count", "a"]]));
    assert!(matches!(enumerate::run(people(), "zip", &mut log), Err(RunError::UnknownColumn(name)) if name == "zip"));
    assert!(matches!(enumerate::run(Vec::new(), "a", &mut log), Err(RunError::EmptyStream)));
    assert_eq!(enumerate::apply(1, &StringRecord::from(vec!["a", "b"])), Ok("b".to_string()));
    assert_eq!(enumerate::apply(2, &StringRecord::from(vec!["a", "b"])), Err(2));
}

#[test]
fn sort_textual_ascending_is_stable() {
    let mut log = Vec::new();
    let out = sort::run(people(), "name", false, SortDirection::Ascending, &mut log).unwrap();
    assert_eq!(out, table_of(&[&["name", "age"], &["amy", "30"], &["amy", "41"], &["bob", "25"]]));
    let records = table_of(&[&["k", "n"], &["b", "1"], &["a", "2"], &["b", "3"], &["a", "4"], &["", "5"], &["ab", "6"]]);
    let out = sort::run(records, "k", false, SortDirection::Ascending, &mut log).unwrap();
    assert_eq!(
        out,
        table_of(&[&["k", "n"], &["", "5"], &["a", "2"], &["a", "4"], &["ab", "6"], &["b", "1"], &["b", "3"]])
    );
    assert!(log.is_empty());
}

#[test]
fn sort_descending_is_reverse_of_ascending() {
    let mut log = Vec::new();
    let records = table_of(&[&["k", "n"], &["b", "1"], &["a", "2"], &["b", "3"], &["a", "4"], &["c", "5"]]);
    let ascending = sort::run(records.clone(), "k", false, SortDirection::Ascending, &mut log).unwrap();
    let descending = sort::run(records.clone(), "k", false, SortDirection::Descending, &mut log).unwrap();
    assert_eq!(descending[0], ascending[0]);
    let mut reversed: Vec<StringRecord> = ascending[1..].to_vec();
    reversed.reverse();
    assert_eq!(&descending[1..], &reversed[..]);
    assert_eq!(
        descending,
        table_of(&[&["k", "n"], &["c", "5"], &["b", "3"], &["b", "1"], &["a", "4"], &["a", "2"]])
    );
    let ascending = sort::run(records.clone(), "n", true, SortDirection::Ascending, &mut log).unwrap();
    let descending = sort::run(records, "n", true, SortDirection::Descending, &mut log).unwrap();
    let mut reversed: Vec<StringRecord> = ascending[1..].to_vec();
    reversed.reverse();
    assert_eq!(&descending[1..], &reversed[..]);
}

#[test]
fn sort_textual_orders_by_code_point() {
    let mut log = Vec::new();
    let records = table_of(&[&["k"], &["é"], &["z"], &["Z"], &["10"], &["9"], &["a"], &["\u{10000}"], &["\u{ffff}"]]);
    let out = sort::run(records, "k", false, SortDirection::Ascending, &mut log).unwrap();
    assert_eq!(
        out,
        table_of(&[&["k"], &["10"], &["9"], &["Z"], &["a"], &["z"], &["é"], &["\u{ffff}"], &["\u{10000}"]])
    );
}

#[test]
fn sort_numerical_orders_integers() {
    let mut log = Vec::new();
    let records = table_of(&[&["n", "t"], &["10", "a"], &["9", "b"], &["-3", "c"], &["+9", "d"], &["0", "e"], &["010", "f"]]);
    let out = sort::run(records, "n", true, SortDirection::Ascending, &mut log).unwrap();
    assert_eq!(
        out,
        table_of(&[&["n", "t"], &["-3", "c"], &["0", "e"], &["9", "b"], &["+9", "d"], &["10", "a"], &["010", "f"]])
    );
}

#[test]
fn sort_numerical_on_non_numeric_field_aborts() {
    let mut log = Vec::new();
    let records = table_of(&[&["n"], &["1"], &["x1"], &["2"], &["y"]]);
    let error = sort::run(records, "n", true, SortDirection::Ascending, &mut log).unwrap_err();
    assert!(matches!(&error, RunError::NotNumerical(field) if field == "x1"));
    assert_eq!(error.message(), "Field is not numerical: 'x1'");
    assert!(log.is_empty());
    let records = table_of(&[&["n"], &[" 1"]]);
    assert!(matches!(sort::run(records, "n", true, SortDirection::Descending, &mut log), Err(RunError::NotNumerical(field)) if field == " 1"));
}

#[test]
fn sort_drops_rows_without_the_field_and_says_so() {
    let mut log = Vec::new();
    let records = table_of(&[&["a", "b"], &["1", "z"], &["2"], &["3", "y"], &[]]);
    let out = sort::run(records, "b", false, SortDirection::Ascending, &mut log).unwrap();
    assert_eq!(out, table_of(&[&["a", "b"], &["3", "y"], &["1", "z"]]));
    assert_eq!(log, vec![Diagnostic { row: 2, column: 1 }, Diagnostic { row: 4, column: 1 }]);
}

#[test]
fn sort_errors_and_header_only() {
    let mut log = Vec::new();
    assert!(matches!(sort::run(Vec::new(), "a", false, SortDirection::Ascending, &mut log), Err(RunError::EmptyStream)));
    assert!(matches!(sort::run(people(), "zip", true, SortDirection::Ascending, &mut log), Err(RunError::UnknownColumn(name)) if name == "zip"));
    let out = sort::run(table_of(&[&["a"]]), "a", true, SortDirection::Descending, &mut log).unwrap();
    assert_eq!(out, table_of(&[&["a"]]));
}

#[test]
fn trim_all_fields() {
    let records = table_of(&[&[" name ", "age"], &["  amy  ", " 30"], &["bob\t", "\n25\r\n"], &[" x y "]]);
    let out = trim::run(records, &Column::All).unwrap();
    assert_eq!(out, table_of(&[&[" name ", "age"], &["amy", "30"], &["bob", "25"], &["x y"]]));
}

#[test]
fn trim_named_fields_only() {
    let records = table_of(&[&["name", "age", "city"], &["  amy  ", " 30", " rome "], &[" bob"]]);
    let out = trim::run(records, &names_of(&["city", "name"])).unwrap();
    assert_eq!(out, table_of(&[&["name", "age", "city"], &["amy", " 30", "rome"], &["bob"]]));
}

#[test]
fn trim_errors() {
    assert!(matches!(trim::run(Vec::new(), &Column::All), Err(RunError::EmptyStream)));
    assert!(matches!(trim::run(people(), &names_of(&["name", "zip"])), Err(RunError::UnknownColumn(name)) if name == "zip"));
}

#[test]
fn trim_apply_one_record() {
    let record = StringRecord::from(vec![" a ", " b ", " c "]);
    assert_eq!(trim::apply(&None, &record), StringRecord::from(vec!["a", "b", "c"]));
    assert_eq!(trim::apply(&Some(vec![1]), &record), StringRecord::from(vec![" a ", "b", " c "]));
    assert_eq!(trim::apply(&Some(vec![]), &record), record);
    assert_eq!(trim::apply(&Some(vec![7, 2, 2]), &record), StringRecord::from(vec![" a ", " b ", "c"]));
}
