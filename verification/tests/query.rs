use csv::StringRecord;
use dsv_util::ast::{build, join, Ast, Column, Command};
use dsv_util::grammar::parse;
use dsv_util::operators::lib::{Diagnostic, RunError};

fn records_of(rows: &[&[&str]]) -> Vec<StringRecord> {
    rows.iter().map(|row| StringRecord::from(row.to_vec())).collect()
}

fn query(text: &str) -> Ast {
    build(&parse(text).unwrap()).unwrap()
}

fn run_query(text: &str, rows: &[&[&str]]) -> Result<Vec<String>, RunError> {
    let mut log = Vec::new();
    query(text).run_on(records_of(rows), ',', &mut log)
}

#[test]
fn select_star_returns_input_rows() {
    let rows: &[&[&str]] = &[&["name", "age"], &["amy", "30"], &["bob"], &[], &["x", "y", "z"]];
    let out = run_query("select *", rows).unwrap();
    assert_eq!(out, vec!["name,age", "amy,30", "bob", "", "x,y,z"]);
    let out = run_query("select * | select \"*\" | select '*'", rows).unwrap();
    assert_eq!(out, vec!["name,age", "amy,30", "bob", "", "x,y,z"]);
    assert_eq!(run_query("select *", &[]).unwrap(), Vec::<String>::new());
}

#[test]
fn select_then_sort_scenario() {
    let out = run_query(
        "select \"name\" | sort \"name\" asc",
        &[&["name", "age"], &["amy", "30"], &["bob", "25"], &["amy", "41"]],
    )
    .unwrap();
    assert_eq!(out, vec!["name", "amy", "amy", "bob"]);
}

#[test]
fn trim_then_where_matches_padded_field() {
    let rows: &[&[&str]] = &[&["name", "age"], &["  amy  ", "30"], &["bob", "25"], &["amy", "41"]];
    let out = run_query("trim \"name\" | where \"name\" = \"amy\"", rows).unwrap();
    assert_eq!(out, vec!["name,age", "amy,30", "amy,41"]);
    let out = run_query("where \"name\" = \"amy\" | trim \"name\"", rows).unwrap();
    assert_eq!(out, vec!["name,age", "amy,41"]);
}

#[test]
fn behead_in_a_query() {
    let rows: &[&[&str]] = &[&["name", "age"], &["amy", "30"], &["bob", "25"]];
    assert_eq!(run_query("behead", rows).unwrap(), vec!["amy,30", "bob,25"]);
    assert_eq!(run_query("behead | behead | behead | behead", rows).unwrap(), Vec::<String>::new());
    assert_eq!(run_query("behead", &[]).unwrap(), Vec::<String>::new());
    assert_eq!(run_query("select \"name\" | behead", rows).unwrap(), vec!["amy", "bob"]);
}

#[test]
fn enum_then_sort_by_count() {
    let rows: &[&[&str]] =
        &[&["name", "age"], &["amy", "30"], &["bob", "25"], &["amy", "41"], &["cat", "1"], &["amy", "2"], &["bob", "3"]];
    let out = run_query("enum \"name\" | sort num \"count\" desc | select \"name\"", rows).unwrap();
    assert_eq!(out, vec!["name", "amy", "bob", "cat"]);
    let out = run_query("enum \"name\" | sort \"name\" asc", rows).unwrap();
    assert_eq!(out, vec!["count,name", "3,amy", "2,bob", "1,cat"]);
}

#[test]
fn header_is_rewritten_by_select_and_enum_only() {
    let rows: &[&[&str]] = &[&[" name ", "age"], &["amy", "30"]];
    assert_eq!(run_query("trim *", rows).unwrap()[0], " name ,age");
    assert_eq!(run_query("sort \"age\" desc", rows).unwrap()[0], " name ,age");
    assert_eq!(run_query("where \"age\" like \"x\"", rows).unwrap(), vec![" name ,age"]);
    assert_eq!(run_query("select \"age\" \" name \"", rows).unwrap()[0], "age, name ");
    assert_eq!(run_query("enum \"age\"", rows).unwrap()[0], "count,age");
}

#[test]
fn run_stops_at_the_first_failing_stage() {
    let rows: &[&[&str]] = &[&["name", "age"], &["amy", "30"], &["bob"]];
    let mut log = Vec::new();
    let error = query("where \"age\" like \"3\" | select \"zip\" | enum \"nothing\"")
        .run_on(records_of(rows), ';', &mut log)
        .unwrap_err();
    assert!(matches!(&error, RunError::UnknownColumn(name) if name == "zip"));
    assert_eq!(log, vec![Diagnostic { row: 2, column: 1 }]);
    assert!(matches!(run_query("trim *", &[]), Err(RunError::EmptyStream)));
    assert!(matches!(run_query("behead | select \"a\"", &[&["a"]]), Err(RunError::EmptyStream)));
}

#[test]
fn run_collects_diagnostics_of_every_stage() {
    let rows: &[&[&str]] = &[&["a", "b", "c"], &["1", "2", "3"], &["4", "5"], &["6"], &["7", "8", "9"]];
    let mut log = vec![Diagnostic { row: 0, column: 0 }];
    let out = query("where \"b\" like \".\" | select \"c\"").run_on(records_of(rows), '\t', &mut log).unwrap();
    assert_eq!(out, vec!["c", "3", "9"]);
    assert_eq!(
        log,
        vec![
            Diagnostic { row: 0, column: 0 },
            Diagnostic { row: 3, column: 1 },
            Diagnostic { row: 2, column: 2 }
        ]
    );
}

#[test]
fn empty_query_returns_the_lines_of_the_input() {
    let mut log = Vec::new();
    let out = Ast(Vec::new()).run_on(records_of(&[&["a", "b"], &["1", "2"]]), '|', &mut log).unwrap();
    assert_eq!(out, vec!["a|b", "1|2"]);
    let out = Ast::default().run_on(Vec::new(), '|', &mut log).unwrap();
    assert!(out.is_empty());
}

#[test]
fn join_with_delimiter() {
    assert_eq!(join(&StringRecord::from(vec!["a", "b", "c"]), ','), "a,b,c");
    assert_eq!(join(&StringRecord::from(vec!["a"]), ','), "a");
    assert_eq!(join(&StringRecord::from(vec!["", ""]), ','), ",");
    assert_eq!(join(&StringRecord::from(Vec::<String>::new()), ','), "");
    assert_eq!(join(&StringRecord::from(vec!["x", "y"]), '\u{1f}'), "x\u{1f}y");
    assert_eq!(join(&StringRecord::from(vec!["x", "y"]), 'é'), "xéy");
}

#[test]
fn command_run_dispatches_to_its_stage() {
    let mut log = Vec::new();
    let rows = records_of(&[&["a", "b"], &[" 1 ", "2"]]);
    let out = Command::Trim(Column::All).run(rows.clone(), &mut log).unwrap();
    assert_eq!(out, records_of(&[&["a", "b"], &["1", "2"]]));
    let out = Command::Behead.run(rows.clone(), &mut log).unwrap();
    assert_eq!(out, records_of(&[&[" 1 ", "2"]]));
    let out = Command::Enumerate("b".to_string()).run(rows, &mut log).unwrap();
    assert_eq!(out, records_of(&[&["count", "b"], &["1", "2"]]));
}
