use dsv_util::ast::{build, build_command, comparison_command, Ast, BuildError, Column, Command, Comparison, SortDirection};
use dsv_util::grammar::{parse, Pair, Rule};
use dsv_util::pattern::{Pattern, PatternError};

fn leaf_pair(rule: Rule, text: &str) -> Pair {
    Pair { rule, text: text.to_string(), start: 3, end: 9, children: Vec::new() }
}

fn branch_pair(rule: Rule, children: Vec<Pair>) -> Pair {
    Pair { rule, text: String::new(), start: 1, end: 20, children }
}

fn compile_query(text: &str) -> Result<Ast, BuildError> {
    build(&parse(text).unwrap())
}

#[test]
fn column_from_single_star_is_all() {
    assert!(matches!(Column::from(vec!["*".to_string()]), Column::All));
}

#[test]
fn column_from_names_keeps_names_in_order() {
    match Column::from(vec!["b".to_string(), "a".to_string()]) {
        Column::Names(names) => assert_eq!(names, vec!["b", "a"]),
        Column::All => panic!("names expected"),
    }
    match Column::from(vec!["*".to_string(), "a".to_string()]) {
        Column::Names(names) => assert_eq!(names, vec!["*", "a"]),
        Column::All => panic!("names expected"),
    }
    match Column::from(vec!["**".to_string()]) {
        Column::Names(names) => assert_eq!(names, vec!["**"]),
        Column::All => panic!("names expected"),
    }
}

#[test]
fn sort_direction_from_str() {
    assert_eq!(SortDirection::from_str("asc"), Some(SortDirection::Ascending));
    assert_eq!(SortDirection::from_str("desc"), Some(SortDirection::Descending));
    assert_eq!(SortDirection::from_str("ASC"), None);
    assert_eq!(SortDirection::from_str(""), None);
    assert_eq!(SortDirection::from_str("ascending"), None);
}

#[test]
fn build_preserves_stage_order() {
    let Ast(commands) = compile_query(
        "trim \"a\" | where \"a\" = \"x\" | where \"b\" like \"^y\" | enum \"a\" | sort num \"count\" desc | sort \"a\" asc | select * | behead",
    )
    .unwrap();
    assert_eq!(commands.len(), 8);
    assert!(matches!(&commands[0], Command::Trim(Column::Names(names)) if names == &vec!["a".to_string()]));
    assert!(matches!(&commands[1], Command::Comparison(column, Comparison::Equals(value)) if column == "a" && value == "x"));
    assert!(matches!(&commands[2], Command::Comparison(column, Comparison::Matches(pattern)) if column == "b" && pattern.as_str() == "^y"));
    assert!(matches!(&commands[3], Command::Enumerate(column) if column == "a"));
    assert!(matches!(&commands[4], Command::Sort { is_numerical: true, column, direction: SortDirection::Descending } if column == "count"));
    assert!(matches!(&commands[5], Command::Sort { is_numerical: false, column, direction: SortDirection::Ascending } if column == "a"));
    assert!(matches!(&commands[6], Command::Select(Column::All)));
    assert!(matches!(&commands[7], Command::Behead));
}

#[test]
fn build_stops_at_end_of_input() {
    let pairs = vec![
        leaf_pair(Rule::Behead, "behead"),
        leaf_pair(Rule::EndOfInput, ""),
        leaf_pair(Rule::Atom, "never looked at"),
    ];
    let Ast(commands) = build(&pairs).unwrap();
    assert_eq!(commands.len(), 1);
    let Ast(none) = build(&Vec::new()).unwrap();
    assert!(none.is_empty());
}

#[test]
fn build_invalid_pattern_for_like() {
    match compile_query("where \"a\" like \"(\"") {
        Err(BuildError::InvalidPattern { pattern, reason, start, end }) => {
            assert_eq!(pattern, "(");
            assert!(reason.is_some());
            assert_eq!((start, end), (0, 18));
        }
        other => panic!("unexpected {:?}", other),
    }
}

#[test]
fn build_invalid_pattern_even_for_equals() {
    let error = compile_query("where \"a\" = \"(\"").unwrap_err();
    assert!(matches!(&error, BuildError::InvalidPattern { pattern, .. } if pattern == "("));
    let message = error.message();
    assert!(message.starts_with("Invalid regex '(': "));
    assert!(message.len() > "Invalid regex '(': ".len());
}

#[test]
fn build_first_failing_stage_wins() {
    let error = compile_query("where \"a\" = \"[\" | where \"b\" like \"(\"").unwrap_err();
    assert!(matches!(&error, BuildError::InvalidPattern { pattern, .. } if pattern == "["));
}

#[test]
fn build_unhandled_comparator() {
    let pair = branch_pair(
        Rule::Comparison,
        vec![
            leaf_pair(Rule::Atom, "a"),
            leaf_pair(Rule::Comparator, "<"),
            leaf_pair(Rule::Atom, "1"),
        ],
    );
    match build_command(&pair) {
        Err(error) => {
            assert!(matches!(&error, BuildError::UnhandledComparator { found, start: 1, end: 20 } if found == "<"));
            assert_eq!(error.message(), "Unhandled comparator '<'");
        }
        Ok(command) => panic!("unexpected {:?}", command),
    }
}

#[test]
fn build_invalid_pattern_comes_before_unhandled_comparator() {
    let pair = branch_pair(
        Rule::Comparison,
        vec![
            leaf_pair(Rule::Atom, "a"),
            leaf_pair(Rule::Comparator, "<"),
            leaf_pair(Rule::Atom, "("),
        ],
    );
    assert!(matches!(build_command(&pair), Err(BuildError::InvalidPattern { .. })));
}

#[test]
fn build_comparison_needs_exactly_three_children() {
    let two = branch_pair(
        Rule::Comparison,
        vec![leaf_pair(Rule::Atom, "a"), leaf_pair(Rule::Comparator, "=")],
    );
    let error = build_command(&two).unwrap_err();
    assert!(matches!(&error, BuildError::MissingArgument { rule: Rule::Comparison, start: 1, end: 20 }));
    assert_eq!(error.message(), "expected comparison");
    let four = branch_pair(
        Rule::Comparison,
        vec![
            leaf_pair(Rule::Atom, "a"),
            leaf_pair(Rule::Comparator, "="),
            leaf_pair(Rule::Atom, "b"),
            leaf_pair(Rule::Atom, "c"),
        ],
    );
    assert!(matches!(build_command(&four), Err(BuildError::MissingArgument { rule: Rule::Comparison, .. })));
}

#[test]
fn build_enumerate_needs_exactly_one_child() {
    let none = branch_pair(Rule::Enumerate, vec![]);
    assert!(matches!(build_command(&none), Err(BuildError::MissingArgument { rule: Rule::Enumerate, .. })));
    let two = branch_pair(Rule::Enumerate, vec![leaf_pair(Rule::Atom, "a"), leaf_pair(Rule::Atom, "b")]);
    assert!(matches!(build_command(&two), Err(BuildError::MissingArgument { rule: Rule::Enumerate, .. })));
    let one = branch_pair(Rule::Enumerate, vec![leaf_pair(Rule::Atom, "a")]);
    assert!(matches!(build_command(&one), Ok(Command::Enumerate(column)) if column == "a"));
}

#[test]
fn build_select_and_trim_need_columns() {
    let bare = branch_pair(Rule::Select, vec![]);
    assert!(matches!(build_command(&bare), Err(BuildError::MissingArgument { rule: Rule::Select, .. })));
    let empty = branch_pair(Rule::Trim, vec![branch_pair(Rule::Columns, vec![])]);
    assert!(matches!(build_command(&empty), Err(BuildError::MissingArgument { rule: Rule::Columns, .. })));
    let star = branch_pair(Rule::Trim, vec![branch_pair(Rule::Columns, vec![leaf_pair(Rule::Atom, "*")])]);
    assert!(matches!(build_command(&star), Ok(Command::Trim(Column::All))));
}

#[test]
fn build_invalid_direction() {
    let pair = branch_pair(
        Rule::Sort,
        vec![leaf_pair(Rule::Atom, "a"), leaf_pair(Rule::Direction, "sideways")],
    );
    let error = build_command(&pair).unwrap_err();
    assert!(matches!(&error, BuildError::InvalidDirection { found, start: 3, end: 9 } if found == "sideways"));
    assert_eq!(error.message(), "Matching variant not found: Invalid direction 'sideways'");
}

#[test]
fn build_sort_needs_key_and_direction() {
    let short = branch_pair(Rule::Sort, vec![leaf_pair(Rule::Atom, "a")]);
    assert!(matches!(build_command(&short), Err(BuildError::MissingArgument { rule: Rule::Sort, .. })));
    let hollow = branch_pair(
        Rule::Sort,
        vec![branch_pair(Rule::NumericalSort, vec![]), leaf_pair(Rule::Direction, "asc")],
    );
    assert!(matches!(build_command(&hollow), Err(BuildError::MissingArgument { rule: Rule::NumericalSort, .. })));
}

#[test]
fn build_unhandled_rule() {
    let error = build_command(&leaf_pair(Rule::Atom, "a")).unwrap_err();
    assert!(matches!(&error, BuildError::UnhandledRule { rule: Rule::Atom, start: 3, end: 9 }));
    assert_eq!(error.message(), "Unhandled rule atom");
    let error = build(&vec![leaf_pair(Rule::Direction, "asc")]).unwrap_err();
    assert!(matches!(&error, BuildError::UnhandledRule { rule: Rule::Direction, .. }));
    assert!(matches!(build_command(&leaf_pair(Rule::EndOfInput, "")), Err(BuildError::UnhandledRule { rule: Rule::EndOfInput, .. })));
}

#[test]
fn comparison_command_from_compile_outcome() {
    let made = comparison_command("a", "like", "^x", Pattern::new("^x"), 0, 5).unwrap();
    assert!(matches!(&made, Command::Comparison(column, Comparison::Matches(pattern)) if column == "a" && pattern.as_str() == "^x"));
    let made = comparison_command("a", "=", "^x", Pattern::new("^x"), 0, 5).unwrap();
    assert!(matches!(&made, Command::Comparison(column, Comparison::Equals(value)) if column == "a" && value == "^x"));
    let made = comparison_command("a", "like", "shown", Pattern::new("held"), 0, 5).unwrap();
    assert!(matches!(&made, Command::Comparison(_, Comparison::Matches(pattern)) if pattern.as_str() == "held"));
    let made = comparison_command("a", "=", "shown", Pattern::new("held"), 0, 5).unwrap();
    assert!(matches!(&made, Command::Comparison(_, Comparison::Equals(value)) if value == "shown"));
    let refused = comparison_command("a", "=", "p", Err(PatternError::Other), 2, 7).unwrap_err();
    assert!(matches!(&refused, BuildError::InvalidPattern { pattern, reason: None, start: 2, end: 7 } if pattern == "p"));
    assert_eq!(refused.message(), "Invalid regex 'p'");
    let syntax = comparison_command("a", "=", "p", Err(PatternError::Syntax("bad".to_string())), 2, 7).unwrap_err();
    assert_eq!(syntax.message(), "Invalid regex 'p': bad");
}

#[test]
fn pattern_compiles_and_matches_anywhere() {
    let pattern = Pattern::new("b+c").unwrap();
    assert_eq!(pattern.as_str(), "b+c");
    assert!(pattern.is_match("aabbbcc"));
    assert!(!pattern.is_match("aacc"));
    assert!(matches!(Pattern::new("("), Err(PatternError::Syntax(_))));
}

#[test]
fn pattern_too_big_is_refused_without_a_message() {
    assert!(matches!(Pattern::new("\\w{1000}"), Err(PatternError::Other)));
    let error = compile_query("where \"a\" like \"\\w{1000}\"").unwrap_err();
    assert!(matches!(&error, BuildError::InvalidPattern { pattern, reason: None, .. } if pattern == "\\w{1000}"));
    assert_eq!(error.message(), "Invalid regex '\\w{1000}'");
}

#[test]
fn column_from_no_names_is_an_empty_list() {
    assert!(matches!(Column::from(Vec::new()), Column::Names(names) if names.is_empty()));
}

#[test]
fn pair_makes_a_node() {
    let inside = dsv_util::grammar::pair(Rule::Atom, "a".to_string(), 6, 7, Vec::new());
    let made = dsv_util::grammar::pair(Rule::Enumerate, "enum 'a'".to_string(), 0, 8, vec![inside]);
    assert_eq!(made.rule, Rule::Enumerate);
    assert_eq!(made.text, "enum 'a'");
    assert_eq!((made.start, made.end), (0, 8));
    assert_eq!(made.children.len(), 1);
    assert_eq!(made.children[0].text, "a");
    assert!(matches!(build_command(&made), Ok(Command::Enumerate(column)) if column == "a"));
}
