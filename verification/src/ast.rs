//! The typed form of a query, and how it is built from a parse tree.
use crate::grammar::{nodes, pair_view, program, stage_shaped, stages_from_shape, Node, Pair, Rule};
use crate::operators::behead;
use crate::operators::comparison;
use crate::operators::enumerate;
use crate::operators::lib::{Diagnostic, RunError, RunFault};
use crate::operators::select;
use crate::operators::sort;
use crate::operators::trim;
use crate::pattern::{refused, Pattern, PatternError, Refusal};
use crate::record::{field_at, field_count, fields, rows};
use crate::text::{joined, push_char, same, texts};
use vstd::prelude::*;
use vstd::std_specs::convert::FromSpec;

verus! {

/// A query: its stages, in the order in which they were written.
#[derive(Debug, Default)]
pub struct Ast(pub Vec<Command>);

/// One stage of a query.
#[derive(Debug)]
pub enum Command {
    /// Keep the given columns, in the given order.
    Select(Column),
    /// Keep the rows whose field in the named column meets the comparison.
    Comparison(String, Comparison),
    /// Count how often each value of the named column occurs.
    Enumerate(String),
    /// Order the rows by the named column.
    Sort { is_numerical: bool, column: String, direction: SortDirection },
    /// Take the white space off both ends of the fields of the given columns.
    Trim(Column),
    /// Drop the first row.
    Behead,
}

/// The columns that a stage works on.
#[derive(Debug)]
pub enum Column {
    /// The columns of these names, in this order.
    Names(Vec<String>),
    /// Every column.
    All,
}

/// What a `where` stage asks of a field.
#[derive(Debug)]
pub enum Comparison {
    /// The field is this string.
    Equals(String),
    /// The pattern finds a match somewhere in the field.
    Matches(Pattern),
}

/// The direction of a sort.
#[derive(Clone, Copy, Debug, PartialEq, Eq, Structural)]
pub enum SortDirection {
    Ascending,
    Descending,
}

/// What a [`Column`] stands for.
pub enum ColumnSpec {
    Names(Seq<Seq<char>>),
    All,
}

/// What a [`Comparison`] stands for. A pattern stands for its source text.
pub enum Predicate {
    Equals(Seq<char>),
    Matches(Seq<char>),
}

/// What a [`Command`] stands for.
pub enum Stage {
    Select(ColumnSpec),
    Filter(Seq<char>, Predicate),
    Enumerate(Seq<char>),
    Sort { numeric: bool, column: Seq<char>, direction: SortDirection },
    Trim(ColumnSpec),
    Behead,
}

impl View for Column {
    type V = ColumnSpec;

    open spec fn view(&self) -> ColumnSpec {
        match self {
            Column::Names(names) => ColumnSpec::Names(texts(names@)),
            Column::All => ColumnSpec::All,
        }
    }
}

impl View for Comparison {
    type V = Predicate;

    open spec fn view(&self) -> Predicate {
        match self {
            Comparison::Equals(literal) => Predicate::Equals(literal@),
            Comparison::Matches(pattern) => Predicate::Matches(pattern@),
        }
    }
}

impl View for Command {
    type V = Stage;

    open spec fn view(&self) -> Stage {
        match self {
            Command::Select(columns) => Stage::Select(columns@),
            Command::Comparison(column, comparison) => Stage::Filter(column@, comparison@),
            Command::Enumerate(column) => Stage::Enumerate(column@),
            Command::Sort { is_numerical, column, direction } => Stage::Sort {
                numeric: *is_numerical,
                column: column@,
                direction: *direction,
            },
            Command::Trim(columns) => Stage::Trim(columns@),
            Command::Behead => Stage::Behead,
        }
    }
}

/// What a list of commands stands for.
pub open spec fn stages(commands: Seq<Command>) -> Seq<Stage> {
    commands.map_values(|c: Command| c@)
}

impl View for Ast {
    type V = Seq<Stage>;

    open spec fn view(&self) -> Seq<Stage> {
        stages(self.0@)
    }
}

impl ColumnSpec {
    /// The columns that a list of names asks for: every column where the
    /// list is the single name `*`, and else the columns of those names.
    pub open spec fn of(names: Seq<Seq<char>>) -> ColumnSpec {
        if names.len() == 1 && names[0] == "*"@ {
            ColumnSpec::All
        } else {
            ColumnSpec::Names(names)
        }
    }

    /// A list of names holds at least one name.
    pub open spec fn well_formed(self) -> bool {
        match self {
            ColumnSpec::Names(names) => names.len() > 0,
            ColumnSpec::All => true,
        }
    }
}

impl From<Vec<String>> for Column {
    fn from(columns: Vec<String>) -> (made: Column) {
        if columns.len() == 1 && same(columns[0].as_str(), "*") {
            Column::All
        } else {
            Column::Names(columns)
        }
    }
}

impl vstd::std_specs::convert::FromSpecImpl<Vec<String>> for Column {
    open spec fn obeys_from_spec() -> bool {
        true
    }

    open spec fn from_spec(columns: Vec<String>) -> Column {
        if columns@.len() == 1 && columns@[0]@ == "*"@ {
            Column::All
        } else {
            Column::Names(columns)
        }
    }
}

/// The columns that a list of names asks for are those of [`ColumnSpec::of`]:
/// a single `*` is every column. A list that is not empty gives columns that
/// are well formed.
pub proof fn column_from_names(columns: Vec<String>)
    ensures
        Column::from_spec(columns)@ == ColumnSpec::of(texts(columns@)),
        columns@.len() > 0 ==> Column::from_spec(columns)@.well_formed(),
{
}

impl SortDirection {
    /// The direction that `text` names: `asc` or `desc`.
    pub open spec fn named(text: Seq<char>) -> Option<SortDirection> {
        if text == "asc"@ {
            Some(SortDirection::Ascending)
        } else if text == "desc"@ {
            Some(SortDirection::Descending)
        } else {
            None
        }
    }

    /// Reads a direction: `asc` is ascending, `desc` is descending, and
    /// nothing else is a direction.
    pub fn from_str(text: &str) -> (direction: Option<SortDirection>)
        ensures
            direction == SortDirection::named(text@),
    {
        if same(text, "asc") {
            Some(SortDirection::Ascending)
        } else if same(text, "desc") {
            Some(SortDirection::Descending)
        } else {
            None
        }
    }
}

/// Why a parse tree could not be built into a query. `start` and `end`
/// bound the part of the query that the error is about, in characters.
#[derive(Debug)]
pub enum BuildError {
    /// The pattern of a `where` stage is no regular expression. `reason`
    /// holds the message of a syntax error.
    InvalidPattern { pattern: String, reason: Option<String>, start: usize, end: usize },
    /// The comparator of a `where` stage is neither `=` nor `like`.
    UnhandledComparator { found: String, start: usize, end: usize },
    /// The direction of a `sort` stage is neither `asc` nor `desc`.
    InvalidDirection { found: String, start: usize, end: usize },
    /// A node stands where a stage is due, and its rule is that of no stage.
    UnhandledRule { rule: Rule, start: usize, end: usize },
    /// A node of this rule lacks a node inside it, or has too many.
    MissingArgument { rule: Rule, start: usize, end: usize },
}

/// What a [`BuildError`] stands for.
pub enum BuildFault {
    InvalidPattern { pattern: Seq<char>, reason: Option<Seq<char>>, start: int, end: int },
    UnhandledComparator { found: Seq<char>, start: int, end: int },
    InvalidDirection { found: Seq<char>, start: int, end: int },
    UnhandledRule { rule: Rule, start: int, end: int },
    MissingArgument { rule: Rule, start: int, end: int },
}

impl View for BuildError {
    type V = BuildFault;

    open spec fn view(&self) -> BuildFault {
        match self {
            BuildError::InvalidPattern { pattern, reason, start, end } => {
                BuildFault::InvalidPattern {
                    pattern: pattern@,
                    reason: match reason {
                        Some(message) => Some(message@),
                        None => None,
                    },
                    start: *start as int,
                    end: *end as int,
                }
            },
            BuildError::UnhandledComparator { found, start, end } => {
                BuildFault::UnhandledComparator {
                    found: found@,
                    start: *start as int,
                    end: *end as int,
                }
            },
            BuildError::InvalidDirection { found, start, end } => BuildFault::InvalidDirection {
                found: found@,
                start: *start as int,
                end: *end as int,
            },
            BuildError::UnhandledRule { rule, start, end } => BuildFault::UnhandledRule {
                rule: *rule,
                start: *start as int,
                end: *end as int,
            },
            BuildError::MissingArgument { rule, start, end } => BuildFault::MissingArgument {
                rule: *rule,
                start: *start as int,
                end: *end as int,
            },
        }
    }
}

impl BuildFault {
    /// The error in words.
    pub open spec fn message(self) -> Seq<char> {
        match self {
            BuildFault::InvalidPattern { pattern, reason: Some(reason), .. } => "Invalid regex '"@
                + pattern + "': "@ + reason,
            BuildFault::InvalidPattern { pattern, reason: None, .. } => "Invalid regex '"@ + pattern
                + "'"@,
            BuildFault::UnhandledComparator { found, .. } => "Unhandled comparator '"@ + found
                + "'"@,
            BuildFault::InvalidDirection { found, .. } =>
                "Matching variant not found: Invalid direction '"@ + found + "'"@,
            BuildFault::UnhandledRule { rule, .. } => "Unhandled rule "@ + rule.name(),
            BuildFault::MissingArgument { rule, .. } => "expected "@ + rule.name(),
        }
    }
}

impl BuildError {
    /// The error in words.
    pub fn message(&self) -> (text: String)
        ensures
            text@ == self@.message(),
    {
        match self {
            BuildError::InvalidPattern { pattern, reason, .. } => {
                let mut text = String::from_str("Invalid regex '");
                text.append(pattern.as_str());
                match reason {
                    Some(reason) => {
                        text.append("': ");
                        text.append(reason.as_str());
                    },
                    None => {
                        text.append("'");
                    },
                }
                text
            },
            BuildError::UnhandledComparator { found, .. } => {
                let mut text = String::from_str("Unhandled comparator '");
                text.append(found.as_str());
                text.append("'");
                text
            },
            BuildError::InvalidDirection { found, .. } => {
                let mut text = String::from_str("Matching variant not found: Invalid direction '");
                text.append(found.as_str());
                text.append("'");
                text
            },
            BuildError::UnhandledRule { rule, .. } => {
                let mut text = String::from_str("Unhandled rule ");
                text.append(rule.as_str());
                text
            },
            BuildError::MissingArgument { rule, .. } => {
                let mut text = String::from_str("expected ");
                text.append(rule.as_str());
                text
            },
        }
    }
}

/// The complaint that `node` does not hold the nodes that its rule asks for.
pub open spec fn missing(node: Node) -> BuildFault {
    BuildFault::MissingArgument { rule: node.rule, start: node.start, end: node.end }
}

/// The columns that a column selector names: the texts of the nodes inside
/// it, in order. A selector with nothing inside it names no columns, which
/// is refused.
pub open spec fn columns_of(selector: Node) -> Result<ColumnSpec, BuildFault> {
    if selector.children.len() == 0 {
        Err(missing(selector))
    } else {
        Ok(ColumnSpec::of(selector.children.map_values(|atom: Node| atom.text)))
    }
}

/// The columns of a `select` or `trim` stage: those of its first node.
pub open spec fn selection_of(node: Node) -> Result<ColumnSpec, BuildFault> {
    if node.children.len() == 0 {
        Err(missing(node))
    } else {
        columns_of(node.children[0])
    }
}

/// The stage that a `where` comes to, given what compiling its pattern
/// gave: the source of the compiled pattern, or why it was refused. The
/// pattern must be a regular expression whatever the comparator is; then `=`
/// asks for equality with the text of the pattern, and `like` for a match of
/// the compiled pattern.
pub open spec fn filter_of(
    column: Seq<char>,
    comparator: Seq<char>,
    pattern: Seq<char>,
    outcome: Result<Seq<char>, Refusal>,
    start: int,
    end: int,
) -> Result<Stage, BuildFault> {
    match outcome {
        Err(Refusal::Syntax(message)) => Err(
            BuildFault::InvalidPattern { pattern, reason: Some(message), start, end },
        ),
        Err(Refusal::Other) => Err(
            BuildFault::InvalidPattern { pattern, reason: None, start, end },
        ),
        Ok(source) => if comparator == "="@ {
            Ok(Stage::Filter(column, Predicate::Equals(pattern)))
        } else if comparator == "like"@ {
            Ok(Stage::Filter(column, Predicate::Matches(source)))
        } else {
            Err(BuildFault::UnhandledComparator { found: comparator, start, end })
        },
    }
}

/// What compiling `pattern` gives: the pattern itself where it compiles, and
/// else why it is refused.
pub open spec fn compiling(pattern: Seq<char>) -> Result<Seq<char>, Refusal> {
    match refused(pattern) {
        None => Ok(pattern),
        Some(refusal) => Err(refusal),
    }
}

/// The stage of a `where` node: it holds exactly a column, a comparator and
/// a pattern.
pub open spec fn comparison_of(node: Node) -> Result<Stage, BuildFault> {
    if node.children.len() != 3 {
        Err(missing(node))
    } else {
        filter_of(
            node.children[0].text,
            node.children[1].text,
            node.children[2].text,
            compiling(node.children[2].text),
            node.start,
            node.end,
        )
    }
}

/// The stage of an `enum` node: it holds exactly a column.
pub open spec fn enumerate_of(node: Node) -> Result<Stage, BuildFault> {
    if node.children.len() != 1 {
        Err(missing(node))
    } else {
        Ok(Stage::Enumerate(node.children[0].text))
    }
}

/// The stage of a `sort` node: it holds what to sort by, which is a column
/// or a numerical sort with a column inside it, and then a direction.
pub open spec fn sort_of(node: Node) -> Result<Stage, BuildFault> {
    if node.children.len() < 2 {
        Err(missing(node))
    } else {
        let key = node.children[0];
        let direction = node.children[1];
        let numeric = key.rule == Rule::NumericalSort;
        if numeric && key.children.len() == 0 {
            Err(missing(key))
        } else {
            match SortDirection::named(direction.text) {
                Some(named) => Ok(
                    Stage::Sort {
                        numeric,
                        column: if numeric {
                            key.children[0].text
                        } else {
                            key.text
                        },
                        direction: named,
                    },
                ),
                None => Err(
                    BuildFault::InvalidDirection {
                        found: direction.text,
                        start: direction.start,
                        end: direction.end,
                    },
                ),
            }
        }
    }
}

/// The stage that a node of the parse tree comes to.
pub open spec fn stage_of(node: Node) -> Result<Stage, BuildFault> {
    match node.rule {
        Rule::Select => match selection_of(node) {
            Ok(columns) => Ok(Stage::Select(columns)),
            Err(fault) => Err(fault),
        },
        Rule::Comparison => comparison_of(node),
        Rule::Enumerate => enumerate_of(node),
        Rule::Sort => sort_of(node),
        Rule::Trim => match selection_of(node) {
            Ok(columns) => Ok(Stage::Trim(columns)),
            Err(fault) => Err(fault),
        },
        Rule::Behead => Ok(Stage::Behead),
        _ => Err(BuildFault::UnhandledRule { rule: node.rule, start: node.start, end: node.end }),
    }
}

/// The stages that the nodes come to, added to `found`: one for each node up
/// to the first that marks the end of the query, or the first failure.
pub open spec fn stages_of(nodes: Seq<Node>, found: Seq<Stage>) -> Result<Seq<Stage>, BuildFault>
    decreases nodes.len(),
{
    if nodes.len() == 0 || nodes[0].rule == Rule::EndOfInput {
        Ok(found)
    } else {
        match stage_of(nodes[0]) {
            Ok(stage) => stages_of(nodes.drop_first(), found.push(stage)),
            Err(fault) => Err(fault),
        }
    }
}

/// A node that has the form of a stage is built into a stage, unless it is a
/// `where` whose pattern is no regular expression.
pub proof fn shaped_stage_builds(node: Node)
    requires
        stage_shaped(node),
    ensures
        match stage_of(node) {
            Ok(_) => true,
            Err(fault) => fault is InvalidPattern,
        },
{
}

proof fn shaped_stages_build(front: Seq<Node>, end: Node, found: Seq<Stage>)
    requires
        end.rule == Rule::EndOfInput,
        forall|k: int| 0 <= k < front.len() ==> stage_shaped(#[trigger] front[k]),
    ensures
        match stages_of(front.push(end), found) {
            Ok(_) => true,
            Err(fault) => fault is InvalidPattern,
        },
    decreases front.len(),
{
    let all = front.push(end);
    if front.len() > 0 {
        assert(all[0] == front[0]);
        shaped_stage_builds(front[0]);
        assert(all.drop_first() =~= front.drop_first().push(end));
        assert forall|k: int| 0 <= k < front.drop_first().len() implies stage_shaped(
            #[trigger] front.drop_first()[k],
        ) by {
            assert(front.drop_first()[k] == front[k + 1]);
        }
        match stage_of(front[0]) {
            Ok(stage) => shaped_stages_build(front.drop_first(), end, found.push(stage)),
            Err(_) => {},
        }
    } else {
        assert(all[0] == end);
    }
}

/// Every query that follows the grammar can be built, unless the pattern of
/// one of its `where` stages is no regular expression: the parse tree of a
/// query gives rise to no other error.
pub proof fn parsed_query_builds(text: Seq<char>)
    ensures
        program(text) matches Ok(tree) ==> match stages_of(tree, seq![]) {
            Ok(_) => true,
            Err(fault) => fault is InvalidPattern,
        },
{
    if let Ok(tree) = program(text) {
        stages_from_shape(text, crate::grammar::skip_blanks(text, 0), seq![]);
        assert(tree =~= tree.drop_last().push(tree.last()));
        shaped_stages_build(tree.drop_last(), tree.last(), seq![]);
    }
}

/// What building one command returned, as [`stage_of`] states it.
pub open spec fn built(outcome: Result<Command, BuildError>) -> Result<Stage, BuildFault> {
    match outcome {
        Ok(command) => Ok(command@),
        Err(error) => Err(error@),
    }
}

fn child(pair: &Pair, index: usize) -> (inside: &Pair)
    requires
        index < pair.children.len(),
    ensures
        inside@ == pair@.children[index as int],
        pair@.children.len() == pair.children.len(),
{
    proof {
        pair_view(*pair);
    }
    &pair.children[index]
}

fn lacks(pair: &Pair) -> (error: BuildError)
    ensures
        error@ == missing(pair@),
{
    proof {
        pair_view(*pair);
    }
    BuildError::MissingArgument { rule: pair.rule, start: pair.start, end: pair.end }
}

fn get_column_selector(selector: &Pair) -> (columns: Result<Column, BuildError>)
    ensures
        match columns {
            Ok(made) => columns_of(selector@) == Ok::<ColumnSpec, BuildFault>(made@),
            Err(error) => columns_of(selector@) == Err::<ColumnSpec, BuildFault>(error@),
        },
{
    proof {
        pair_view(*selector);
    }
    let count = selector.children.len();
    if count == 0 {
        return Err(lacks(selector));
    }
    let mut names: Vec<String> = Vec::new();
    let mut i: usize = 0;
    while i < count
        invariant
            i <= count == selector.children.len(),
            selector@.children == nodes(selector.children@),
            texts(names@) == selector@.children.take(i as int).map_values(|atom: Node| atom.text),
        decreases count - i,
    {
        let atom = &selector.children[i];
        proof {
            pair_view(*atom);
            assert(selector@.children.take(i + 1).map_values(|atom: Node| atom.text)
                =~= selector@.children.take(i as int).map_values(|atom: Node| atom.text).push(
                atom@.text,
            ));
        }
        let name = atom.text.clone();
        assert(texts(names@.push(name)) =~= texts(names@).push(name@));
        names.push(name);
        i += 1;
    }
    assert(selector@.children.take(count as int) == selector@.children);
    let ghost listed = names;
    let made = Column::from(names);
    proof {
        column_from_names(listed);
    }
    Ok(made)
}

/// The command of a `where` stage, given its three texts and what compiling
/// the pattern gave.
pub fn comparison_command(
    column: &str,
    comparator: &str,
    pattern: &str,
    outcome: Result<Pattern, PatternError>,
    start: usize,
    end: usize,
) -> (made: Result<Command, BuildError>)
    ensures
        built(made) == filter_of(
            column@,
            comparator@,
            pattern@,
            match outcome {
                Ok(compiled) => Ok(compiled@),
                Err(error) => Err(error@),
            },
            start as int,
            end as int,
        ),
{
    match outcome {
        Err(PatternError::Syntax(message)) => Err(
            BuildError::InvalidPattern {
                pattern: String::from_str(pattern),
                reason: Some(message),
                start,
                end,
            },
        ),
        Err(PatternError::Other) => Err(
            BuildError::InvalidPattern {
                pattern: String::from_str(pattern),
                reason: None,
                start,
                end,
            },
        ),
        Ok(compiled) => {
            if same(comparator, "=") {
                Ok(
                    Command::Comparison(
                        String::from_str(column),
                        Comparison::Equals(String::from_str(pattern)),
                    ),
                )
            } else if same(comparator, "like") {
                Ok(Command::Comparison(String::from_str(column), Comparison::Matches(compiled)))
            } else {
                Err(
                    BuildError::UnhandledComparator {
                        found: String::from_str(comparator),
                        start,
                        end,
                    },
                )
            }
        },
    }
}

fn build_sort(pair: &Pair) -> (made: Result<Command, BuildError>)
    ensures
        built(made) == sort_of(pair@),
{
    proof {
        pair_view(*pair);
    }
    if pair.children.len() < 2 {
        return Err(lacks(pair));
    }
    let key = child(pair, 0);
    let direction = child(pair, 1);
    proof {
        pair_view(*key);
        pair_view(*direction);
    }
    let is_numerical = key.rule == Rule::NumericalSort;
    if is_numerical && key.children.len() == 0 {
        return Err(lacks(key));
    }
    let column = if is_numerical {
        let atom = child(key, 0);
        proof {
            pair_view(*atom);
        }
        atom.text.clone()
    } else {
        key.text.clone()
    };
    match SortDirection::from_str(direction.text.as_str()) {
        Some(named) => Ok(Command::Sort { is_numerical, column, direction: named }),
        None => Err(
            BuildError::InvalidDirection {
                found: direction.text.clone(),
                start: direction.start,
                end: direction.end,
            },
        ),
    }
}

/// Builds the command of one stage from its node of the parse tree.
pub fn build_command(pair: &Pair) -> (made: Result<Command, BuildError>)
    ensures
        built(made) == stage_of(pair@),
{
    proof {
        pair_view(*pair);
    }
    match pair.rule {
        Rule::Select => {
            if pair.children.len() == 0 {
                return Err(lacks(pair));
            }
            match get_column_selector(child(pair, 0)) {
                Ok(columns) => Ok(Command::Select(columns)),
                Err(error) => Err(error),
            }
        },
        Rule::Comparison => {
            if pair.children.len() != 3 {
                return Err(lacks(pair));
            }
            let lhs = child(pair, 0);
            let comparator = child(pair, 1);
            let rhs = child(pair, 2);
            proof {
                pair_view(*lhs);
                pair_view(*comparator);
                pair_view(*rhs);
            }
            comparison_command(
                lhs.text.as_str(),
                comparator.text.as_str(),
                rhs.text.as_str(),
                Pattern::new(rhs.text.as_str()),
                pair.start,
                pair.end,
            )
        },
        Rule::Enumerate => {
            if pair.children.len() != 1 {
                return Err(lacks(pair));
            }
            let column = child(pair, 0);
            proof {
                pair_view(*column);
            }
            Ok(Command::Enumerate(column.text.clone()))
        },
        Rule::Sort => build_sort(pair),
        Rule::Trim => {
            if pair.children.len() == 0 {
                return Err(lacks(pair));
            }
            match get_column_selector(child(pair, 0)) {
                Ok(columns) => Ok(Command::Trim(columns)),
                Err(error) => Err(error),
            }
        },
        Rule::Behead => Ok(Command::Behead),
        rule => Err(BuildError::UnhandledRule { rule, start: pair.start, end: pair.end }),
    }
}

/// Builds a query from its parse tree: the commands of the stages in the
/// order in which they stand, up to the pair that marks the end of the query.
/// The first stage that cannot be built ends the work with its error.
pub fn build(pairs: &Vec<Pair>) -> (made: Result<Ast, BuildError>)
    ensures
        match made {
            Ok(ast) => stages_of(nodes(pairs@), seq![]) == Ok::<Seq<Stage>, BuildFault>(ast@),
            Err(error) => stages_of(nodes(pairs@), seq![]) == Err::<Seq<Stage>, BuildFault>(error@),
        },
{
    let mut commands: Vec<Command> = Vec::new();
    let mut i: usize = 0;
    assert(nodes(pairs@).subrange(0, pairs@.len() as int) == nodes(pairs@));
    assert(stages(commands@) =~= seq![]);
    while i < pairs.len()
        invariant
            i <= pairs.len(),
            stages_of(nodes(pairs@), seq![]) == stages_of(
                nodes(pairs@).subrange(i as int, pairs@.len() as int),
                stages(commands@),
            ),
        decreases pairs.len() - i,
    {
        let pair = &pairs[i];
        proof {
            pair_view(*pair);
            assert(nodes(pairs@).subrange(i as int, pairs@.len() as int).drop_first() == nodes(
                pairs@,
            ).subrange(i + 1, pairs@.len() as int));
        }
        if pair.rule == Rule::EndOfInput {
            return Ok(Ast(commands));
        }
        match build_command(pair) {
            Ok(command) => {
                assert(stages(commands@.push(command)) =~= stages(commands@).push(command@));
                commands.push(command);
            },
            Err(error) => {
                return Err(error);
            },
        }
        i += 1;
    }
    Ok(Ast(commands))
}

/// What one stage makes of a table.
pub open spec fn stage_table(stage: Stage, table: Seq<Seq<Seq<char>>>) -> Result<
    Seq<Seq<Seq<char>>>,
    RunFault,
> {
    match stage {
        Stage::Select(columns) => select::selected(table, columns),
        Stage::Filter(column, predicate) => comparison::filtered(table, column, predicate),
        Stage::Enumerate(column) => enumerate::enumerated(table, column),
        Stage::Sort { numeric, column, direction } => sort::sorted(
            table,
            column,
            numeric,
            direction,
        ),
        Stage::Trim(columns) => trim::trimmed_table(table, columns),
        Stage::Behead => Ok(behead::beheaded(table)),
    }
}

/// What one stage says of the rows of a table that it leaves out. A stage
/// that fails says nothing.
pub open spec fn stage_log(stage: Stage, table: Seq<Seq<Seq<char>>>) -> Seq<Diagnostic> {
    match stage {
        Stage::Select(columns) => select::unselected(table, columns),
        Stage::Filter(column, predicate) => comparison::fieldless(table, column),
        Stage::Enumerate(column) => enumerate::uncounted(table, column),
        Stage::Sort { numeric, column, direction } => match sort::sorted(
            table,
            column,
            numeric,
            direction,
        ) {
            Err(RunFault::NotNumerical(_)) => seq![],
            _ => sort::unsorted(table, column),
        },
        Stage::Trim(columns) => seq![],
        Stage::Behead => seq![],
    }
}

/// What a query makes of a table: each stage works on what the stage before
/// it made, and the first stage that fails ends the run with its error.
pub open spec fn query_table(stages: Seq<Stage>, table: Seq<Seq<Seq<char>>>) -> Result<
    Seq<Seq<Seq<char>>>,
    RunFault,
>
    decreases stages.len(),
{
    if stages.len() == 0 {
        Ok(table)
    } else {
        match stage_table(stages.first(), table) {
            Ok(next) => query_table(stages.drop_first(), next),
            Err(fault) => Err(fault),
        }
    }
}

/// What the stages of a query say of the rows that they leave out, in the
/// order of the stages, up to the first stage that fails.
pub open spec fn query_log(stages: Seq<Stage>, table: Seq<Seq<Seq<char>>>) -> Seq<Diagnostic>
    decreases stages.len(),
{
    if stages.len() == 0 {
        seq![]
    } else {
        stage_log(stages.first(), table) + match stage_table(stages.first(), table) {
            Ok(next) => query_log(stages.drop_first(), next),
            Err(_) => seq![],
        }
    }
}

/// A query that holds nothing but `select *` stages returns the table that
/// it was given, and leaves no row out.
pub proof fn select_all_returns_input(stages: Seq<Stage>, table: Seq<Seq<Seq<char>>>)
    requires
        forall|i: int| 0 <= i < stages.len() ==> stages[i] == Stage::Select(ColumnSpec::All),
    ensures
        query_table(stages, table) == Ok::<Seq<Seq<Seq<char>>>, RunFault>(table),
        query_log(stages, table) == Seq::<Diagnostic>::empty(),
    decreases stages.len(),
{
    if stages.len() > 0 {
        assert(stages.first() == stages[0]);
        select::select_all_is_identity(table);
        assert forall|i: int| 0 <= i < stages.drop_first().len() implies stages.drop_first()[i]
            == Stage::Select(ColumnSpec::All) by {
            assert(stages.drop_first()[i] == stages[i + 1]);
        }
        select_all_returns_input(stages.drop_first(), table);
        assert(Seq::<Diagnostic>::empty() + Seq::<Diagnostic>::empty() == Seq::<
            Diagnostic,
        >::empty());
    }
}

/// A query that selects the same columns twice in a row returns what the
/// query with one such stage returns, be it a table or an error.
pub proof fn select_twice_is_select_once(columns: ColumnSpec, table: Seq<Seq<Seq<char>>>)
    requires
        crate::operators::lib::representable(table),
        columns matches ColumnSpec::Names(names) ==> names.len() <= usize::MAX,
    ensures
        query_table(seq![Stage::Select(columns), Stage::Select(columns)], table) == query_table(
            seq![Stage::Select(columns)],
            table,
        ),
{
    let once = seq![Stage::Select(columns)];
    let twice = seq![Stage::Select(columns), Stage::Select(columns)];
    assert(twice.drop_first() =~= once);
    assert(once.drop_first() =~= Seq::<Stage>::empty());
    select::select_is_idempotent(table, columns);
    match select::selected(table, columns) {
        Ok(first) => {
            assert(query_table(Seq::<Stage>::empty(), first) == Ok::<
                Seq<Seq<Seq<char>>>,
                RunFault,
            >(first));
            assert(once.first() == Stage::Select(columns));
            assert(query_table(once, first) == Ok::<Seq<Seq<Seq<char>>>, RunFault>(first));
            assert(query_table(once, table) == Ok::<Seq<Seq<Seq<char>>>, RunFault>(first));
        },
        Err(_) => {},
    }
}

/// The lines of a table: the fields of each row, joined by the delimiter.
pub open spec fn lines(table: Seq<Seq<Seq<char>>>, delimiter: char) -> Seq<Seq<char>> {
    table.map_values(|row: Seq<Seq<char>>| joined(row, delimiter))
}

/// The fields of a record, joined by the delimiter.
pub fn join(record: &csv::StringRecord, delimiter: char) -> (line: String)
    ensures
        line@ == joined(fields(*record), delimiter),
{
    let count = field_count(record);
    let mut line = String::new();
    let mut k: usize = 0;
    assert(fields(*record).take(0) =~= seq![]);
    while k < count
        invariant
            k <= count == fields(*record).len(),
            line@ == joined(fields(*record).take(k as int), delimiter),
        decreases count - k,
    {
        let ghost before = fields(*record).take(k as int);
        let ghost after = fields(*record).take(k + 1);
        assert(after.drop_last() == before);
        if k > 0 {
            push_char(&mut line, delimiter);
        }
        match field_at(record, k) {
            Some(field) => {
                line.append(field);
            },
            None => {},
        }
        assert(line@ =~= joined(after, delimiter));
        k += 1;
    }
    assert(fields(*record).take(count as int) == fields(*record));
    line
}

impl Command {
    /// Runs the stage on a table. What it returns is [`stage_table`] of the
    /// table, and what it says of the rows that it leaves out is added to
    /// `log`.
    pub fn run(&self, records: Vec<csv::StringRecord>, log: &mut Vec<Diagnostic>) -> (outcome:
        Result<Vec<csv::StringRecord>, RunError>)
        ensures
            match outcome {
                Ok(table) => stage_table(self@, rows(records@)) == Ok::<
                    Seq<Seq<Seq<char>>>,
                    RunFault,
                >(rows(table@)),
                Err(error) => stage_table(self@, rows(records@)) == Err::<
                    Seq<Seq<Seq<char>>>,
                    RunFault,
                >(error@),
            },
            final(log)@ == old(log)@ + stage_log(self@, rows(records@)),
    {
        match self {
            Command::Select(columns) => select::run(records, columns, log),
            Command::Comparison(column, comparison) => comparison::run(
                records,
                column.as_str(),
                comparison,
                log,
            ),
            Command::Enumerate(column) => enumerate::run(records, column.as_str(), log),
            Command::Sort { is_numerical, column, direction } => sort::run(
                records,
                column.as_str(),
                *is_numerical,
                *direction,
                log,
            ),
            Command::Trim(columns) => {
                assert(old(log)@ + Seq::<Diagnostic>::empty() == old(log)@);
                trim::run(records, columns)
            },
            Command::Behead => {
                assert(old(log)@ + Seq::<Diagnostic>::empty() == old(log)@);
                let rest = behead::run(records);
                proof {
                    let left = rest->Ok_0;
                    assert(rows(left@) =~= behead::beheaded(rows(records@)));
                }
                rest
            },
        }
    }
}

impl Ast {
    /// Runs the query on a table whose first record is the header, and joins
    /// the fields of each record of the result into a line. The stages run in
    /// the order in which they were written, each on what the one before it
    /// returned; the first that fails ends the run with its error. What the
    /// stages say of the rows that they leave out is added to `log`.
    pub fn run_on(&self, records: Vec<csv::StringRecord>, delim: char, log: &mut Vec<Diagnostic>) -> (outcome:
        Result<Vec<String>, RunError>)
        ensures
            match outcome {
                Ok(text) => query_table(self@, rows(records@)) matches Ok(table) && texts(text@)
                    == lines(table, delim),
                Err(error) => query_table(self@, rows(records@)) == Err::<
                    Seq<Seq<Seq<char>>>,
                    RunFault,
                >(error@),
            },
            final(log)@ == old(log)@ + query_log(self@, rows(records@)),
    {
        let ghost input = rows(records@);
        let ghost mut said: Seq<Diagnostic> = seq![];
        let mut held = records;
        let mut i: usize = 0;
        assert(self@.skip(0) == self@);
        assert(old(log)@ + said == old(log)@);
        assert(said + query_log(self@, input) == query_log(self@, input));
        while i < self.0.len()
            invariant
                i <= self.0.len(),
                input == rows(records@),
                query_table(self@, input) == query_table(self@.skip(i as int), rows(held@)),
                query_log(self@, input) == said + query_log(self@.skip(i as int), rows(held@)),
                log@ == old(log)@ + said,
            decreases self.0.len() - i,
        {
            let ghost current = rows(held@);
            let ghost stage = self@[i as int];
            proof {
                assert(self@.skip(i as int).drop_first() == self@.skip(i + 1));
                assert(self@.skip(i as int).first() == self.0@[i as int]@);
            }
            match self.0[i].run(held, log) {
                Ok(next) => {
                    proof {
                        let told = stage_log(stage, current);
                        assert(said + (told + query_log(self@.skip(i + 1), rows(next@))) == (said
                            + told) + query_log(self@.skip(i + 1), rows(next@)));
                        assert(old(log)@ + said + told == old(log)@ + (said + told));
                        said = said + told;
                    }
                    held = next;
                },
                Err(error) => {
                    proof {
                        let told = stage_log(stage, current);
                        assert(told + Seq::<Diagnostic>::empty() == told);
                        assert(old(log)@ + said + told == old(log)@ + (said + told));
                    }
                    return Err(error);
                },
            }
            i += 1;
        }
        proof {
            assert(self@.skip(self.0.len() as int).len() == 0);
            assert(said + Seq::<Diagnostic>::empty() == said);
        }
        let ghost table = rows(held@);
        let mut text: Vec<String> = Vec::new();
        let mut k: usize = 0;
        assert(texts(text@) =~= lines(table, delim).take(0));
        while k < held.len()
            invariant
                k <= held.len(),
                table == rows(held@),
                texts(text@) == lines(table, delim).take(k as int),
            decreases held.len() - k,
        {
            let line = join(&held[k], delim);
            assert(texts(text@.push(line)) =~= texts(text@).push(line@));
            assert(lines(table, delim).take(k + 1) =~= lines(table, delim).take(k as int).push(
                line@,
            ));
            text.push(line);
            k += 1;
        }
        assert(lines(table, delim).take(held.len() as int) == lines(table, delim));
        Ok(text)
    }
}

} // verus!
