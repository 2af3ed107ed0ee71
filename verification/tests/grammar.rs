use dsv_util::grammar::{parse, Expected, Pair, Rule, SyntaxError};

fn rules_of(pairs: &[Pair]) -> Vec<Rule> {
    pairs.iter().map(|pair| pair.rule).collect()
}

fn texts_of(pairs: &[Pair]) -> Vec<String> {
    pairs.iter().map(|pair| pair.text.clone()).collect()
}

#[test]
fn parse_single_select() {
    let pairs = parse("select \"name\"").unwrap();
    assert_eq!(rules_of(&pairs), vec![Rule::Select, Rule::EndOfInput]);
    let select = &pairs[0];
    assert_eq!(select.text, "select \"name\"");
    assert_eq!((select.start, select.end), (0, 13));
    assert_eq!(rules_of(&select.children), vec![Rule::Columns]);
    let columns = &select.children[0];
    assert_eq!((columns.start, columns.end), (7, 13));
    assert_eq!(rules_of(&columns.children), vec![Rule::Atom]);
    let atom = &columns.children[0];
    assert_eq!(atom.text, "name");
    assert_eq!((atom.start, atom.end), (8, 12));
    assert!(atom.children.is_empty());
    assert_eq!((pairs[1].start, pairs[1].end), (13, 13));
    assert_eq!(pairs[1].text, "");
}

#[test]
fn parse_keeps_the_order_of_the_stages() {
    let pairs =
        parse("trim * | where 'a' = 'b' | enum 'a' | sort num 'count' desc | select * | behead")
            .unwrap();
    assert_eq!(
        rules_of(&pairs),
        vec![
            Rule::Trim,
            Rule::Comparison,
            Rule::Enumerate,
            Rule::Sort,
            Rule::Select,
            Rule::Behead,
            Rule::EndOfInput
        ]
    );
}

#[test]
fn parse_star_is_an_atom_with_text_star() {
    let pairs = parse("select *").unwrap();
    let atom = &pairs[0].children[0].children[0];
    assert_eq!(atom.rule, Rule::Atom);
    assert_eq!(atom.text, "*");
    assert_eq!((atom.start, atom.end), (7, 8));
}

#[test]
fn parse_columns_separated_by_blanks_or_commas() {
    let spaced = parse("select \"a\" \"b\" 'c'").unwrap();
    assert_eq!(texts_of(&spaced[0].children[0].children), vec!["a", "b", "c"]);
    let commas = parse("select \"a\", \"b\",'c' ,*").unwrap();
    assert_eq!(texts_of(&commas[0].children[0].children), vec!["a", "b", "c", "*"]);
    let tight = parse("select\"a\"\"b\"").unwrap();
    assert_eq!(texts_of(&tight[0].children[0].children), vec!["a", "b"]);
}

#[test]
fn parse_quoted_text_may_hold_the_other_quote_and_blanks() {
    let pairs = parse("enum \"it's | here\"").unwrap();
    assert_eq!(rules_of(&pairs), vec![Rule::Enumerate, Rule::EndOfInput]);
    assert_eq!(pairs[0].children[0].text, "it's | here");
    let empty = parse("enum ''").unwrap();
    assert_eq!(empty[0].children[0].text, "");
}

#[test]
fn parse_where_has_column_comparator_pattern() {
    let pairs = parse("where \"name\" like \"^a\"").unwrap();
    let stage = &pairs[0];
    assert_eq!(stage.rule, Rule::Comparison);
    assert_eq!(rules_of(&stage.children), vec![Rule::Atom, Rule::Comparator, Rule::Atom]);
    assert_eq!(texts_of(&stage.children), vec!["name", "like", "^a"]);
    let equal = parse("where\"name\"=\"amy\"").unwrap();
    assert_eq!(texts_of(&equal[0].children), vec!["name", "=", "amy"]);
    assert_eq!((equal[0].children[1].start, equal[0].children[1].end), (11, 12));
}

#[test]
fn parse_sort_textual_and_numerical() {
    let textual = parse("sort \"name\" asc").unwrap();
    let stage = &textual[0];
    assert_eq!(rules_of(&stage.children), vec![Rule::Atom, Rule::Direction]);
    assert_eq!(texts_of(&stage.children), vec!["name", "asc"]);

    let numerical = parse("sort num \"age\" desc").unwrap();
    let stage = &numerical[0];
    assert_eq!(rules_of(&stage.children), vec![Rule::NumericalSort, Rule::Direction]);
    let key = &stage.children[0];
    assert_eq!(key.text, "num \"age\"");
    assert_eq!(rules_of(&key.children), vec![Rule::Atom]);
    assert_eq!(key.children[0].text, "age");
    assert_eq!(stage.children[1].text, "desc");
}

#[test]
fn parse_skips_blanks_around_stages() {
    let pairs = parse("  \t behead \n|\r\n behead  ").unwrap();
    assert_eq!(rules_of(&pairs), vec![Rule::Behead, Rule::Behead, Rule::EndOfInput]);
    assert_eq!((pairs[0].start, pairs[0].end), (4, 10));
    assert_eq!(pairs[0].text, "behead");
    assert_eq!((pairs[1].start, pairs[1].end), (16, 22));
    assert_eq!((pairs[2].start, pairs[2].end), (24, 24));
}

#[test]
fn parse_positions_count_characters_not_bytes() {
    let pairs = parse("enum \"é\" | behead").unwrap();
    assert_eq!(pairs[0].children[0].text, "é");
    assert_eq!((pairs[0].children[0].start, pairs[0].children[0].end), (6, 7));
    assert_eq!((pairs[1].start, pairs[1].end), (11, 17));
}

#[test]
fn parse_empty_query_is_a_syntax_error() {
    let error = parse("").unwrap_err();
    assert_eq!(error, SyntaxError { start: 0, end: 0, expected: Expected::Stage });
    let error = parse("   ").unwrap_err();
    assert_eq!(error, SyntaxError { start: 3, end: 3, expected: Expected::Stage });
}

#[test]
fn parse_unknown_keyword() {
    let error = parse("  pick \"a\"").unwrap_err();
    assert_eq!(error, SyntaxError { start: 2, end: 6, expected: Expected::Stage });
}

#[test]
fn parse_missing_atom() {
    let error = parse("select name").unwrap_err();
    assert_eq!(error, SyntaxError { start: 7, end: 11, expected: Expected::Atom });
    let error = parse("select \"a\",").unwrap_err();
    assert_eq!(error, SyntaxError { start: 11, end: 11, expected: Expected::Atom });
    let error = parse("enum").unwrap_err();
    assert_eq!(error, SyntaxError { start: 4, end: 4, expected: Expected::Atom });
}

#[test]
fn parse_unterminated_quote() {
    let error = parse("enum \"abc def").unwrap_err();
    assert_eq!(error, SyntaxError { start: 5, end: 9, expected: Expected::ClosingQuote });
    let error = parse("enum \"abc'").unwrap_err();
    assert_eq!(error.expected, Expected::ClosingQuote);
}

#[test]
fn parse_bad_comparator() {
    let error = parse("where \"a\" != \"b\"").unwrap_err();
    assert_eq!(error, SyntaxError { start: 10, end: 12, expected: Expected::Comparator });
}

#[test]
fn parse_bad_direction() {
    let error = parse("sort \"a\" up").unwrap_err();
    assert_eq!(error, SyntaxError { start: 9, end: 11, expected: Expected::Direction });
    let error = parse("sort \"a\"").unwrap_err();
    assert_eq!(error, SyntaxError { start: 8, end: 8, expected: Expected::Direction });
}

#[test]
fn parse_bad_separator() {
    let error = parse("behead behead").unwrap_err();
    assert_eq!(error, SyntaxError { start: 7, end: 13, expected: Expected::Separator });
    let error = parse("sort \"a\" ascending").unwrap_err();
    assert_eq!(error, SyntaxError { start: 12, end: 18, expected: Expected::Separator });
}

#[test]
fn parse_trailing_pipe_wants_a_stage() {
    let error = parse("behead |").unwrap_err();
    assert_eq!(error, SyntaxError { start: 8, end: 8, expected: Expected::Stage });
}

#[test]
fn syntax_error_message() {
    let error = parse("  pick").unwrap_err();
    assert_eq!(
        error.message(),
        "expected select, where, enum, sort, trim or behead at character 2"
    );
    assert_eq!(Expected::Atom.as_str(), "* or a quoted string");
    assert_eq!(Expected::ClosingQuote.as_str(), "a closing quote");
    assert_eq!(Expected::Comparator.as_str(), "= or like");
    assert_eq!(Expected::Direction.as_str(), "asc or desc");
    assert_eq!(Expected::Separator.as_str(), "| or the end of the query");
}

#[test]
fn rule_names() {
    assert_eq!(Rule::Select.as_str(), "select");
    assert_eq!(Rule::Comparison.as_str(), "comparison");
    assert_eq!(Rule::Enumerate.as_str(), "enumerate");
    assert_eq!(Rule::Sort.as_str(), "sort");
    assert_eq!(Rule::NumericalSort.as_str(), "numerical_sort");
    assert_eq!(Rule::Trim.as_str(), "trim");
    assert_eq!(Rule::Behead.as_str(), "behead");
    assert_eq!(Rule::Columns.as_str(), "columns");
    assert_eq!(Rule::Atom.as_str(), "atom");
    assert_eq!(Rule::Comparator.as_str(), "comparator");
    assert_eq!(Rule::Direction.as_str(), "direction");
    assert_eq!(Rule::EndOfInput.as_str(), "EOI");
}
