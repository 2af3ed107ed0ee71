//! The grammar of queries: from the text of a query to its parse tree.
//!
//! ```text
//! program    = stage ( "|" stage )* end
//! stage      = select | comparison | enumerate | sort | trim | behead
//! select     = "select" columns
//! comparison = "where" atom comparator atom
//! enumerate  = "enum" atom
//! sort       = "sort" ( "num" atom | atom ) direction
//! trim       = "trim" columns
//! behead     = "behead"
//! columns    = atom ( ","? atom )*
//! atom       = "*" | '"' not-a-double-quote* '"' | "'" not-a-single-quote* "'"
//! comparator = "=" | "like"
//! direction  = "asc" | "desc"
//! ```
//!
//! Blanks (space, tab, line feed, carriage return) may stand before and
//! after every word of the grammar, and need not. A quoted string has no
//! escapes: it ends at the next quote of the kind that opened it. Positions
//! count characters, from 0.
use crate::text::{characters, decimal, decimal_string};
use vstd::prelude::*;

verus! {

/// The rules of the grammar. Each node of a parse tree is the match of one.
#[derive(Clone, Copy, Debug, PartialEq, Eq, Hash, Structural)]
pub enum Rule {
    /// `select`, followed by the columns to keep.
    Select,
    /// `where`, followed by a column, a comparator and a pattern.
    Comparison,
    /// `enum`, followed by the column to count.
    Enumerate,
    /// `sort`, followed by the column to sort by and a direction.
    Sort,
    /// `num` and a column, inside a `sort`.
    NumericalSort,
    /// `trim`, followed by the columns to trim.
    Trim,
    /// `behead`.
    Behead,
    /// One column or more.
    Columns,
    /// `*`, or what stands between a pair of quotes.
    Atom,
    /// `=` or `like`.
    Comparator,
    /// `asc` or `desc`.
    Direction,
    /// The end of the query.
    EndOfInput,
}

/// What the parser looked for where it could not go on.
#[derive(Clone, Copy, Debug, PartialEq, Eq, Hash, Structural)]
pub enum Expected {
    /// The keyword of a stage.
    Stage,
    /// `*` or a quoted string.
    Atom,
    /// The quote that closes a quoted string.
    ClosingQuote,
    /// `=` or `like`.
    Comparator,
    /// `asc` or `desc`.
    Direction,
    /// `|` or the end of the query.
    Separator,
}

/// The text of a query does not follow the grammar. `start` and `end` bound
/// the offending fragment, in characters: it begins where the parser could
/// not go on and ends at the next blank or at the end of the query.
#[derive(Clone, Copy, Debug, PartialEq, Eq, Structural)]
pub struct SyntaxError {
    pub start: usize,
    pub end: usize,
    pub expected: Expected,
}

/// What a [`SyntaxError`] stands for.
pub struct Fault {
    pub start: int,
    pub end: int,
    pub expected: Expected,
}

impl View for SyntaxError {
    type V = Fault;

    open spec fn view(&self) -> Fault {
        Fault { start: self.start as int, end: self.end as int, expected: self.expected }
    }
}

impl Rule {
    /// The name of the rule, as the grammar writes it.
    pub open spec fn name(self) -> Seq<char> {
        match self {
            Rule::Select => "select"@,
            Rule::Comparison => "comparison"@,
            Rule::Enumerate => "enumerate"@,
            Rule::Sort => "sort"@,
            Rule::NumericalSort => "numerical_sort"@,
            Rule::Trim => "trim"@,
            Rule::Behead => "behead"@,
            Rule::Columns => "columns"@,
            Rule::Atom => "atom"@,
            Rule::Comparator => "comparator"@,
            Rule::Direction => "direction"@,
            Rule::EndOfInput => "EOI"@,
        }
    }

    /// The name of the rule, as the grammar writes it.
    pub fn as_str(&self) -> (name: &'static str)
        ensures
            name@ == self.name(),
    {
        match self {
            Rule::Select => "select",
            Rule::Comparison => "comparison",
            Rule::Enumerate => "enumerate",
            Rule::Sort => "sort",
            Rule::NumericalSort => "numerical_sort",
            Rule::Trim => "trim",
            Rule::Behead => "behead",
            Rule::Columns => "columns",
            Rule::Atom => "atom",
            Rule::Comparator => "comparator",
            Rule::Direction => "direction",
            Rule::EndOfInput => "EOI",
        }
    }
}

impl Expected {
    /// What was looked for, in words.
    pub open spec fn words(self) -> Seq<char> {
        match self {
            Expected::Stage => "select, where, enum, sort, trim or behead"@,
            Expected::Atom => "* or a quoted string"@,
            Expected::ClosingQuote => "a closing quote"@,
            Expected::Comparator => "= or like"@,
            Expected::Direction => "asc or desc"@,
            Expected::Separator => "| or the end of the query"@,
        }
    }

    /// What was looked for, in words.
    pub fn as_str(&self) -> (words: &'static str)
        ensures
            words@ == self.words(),
    {
        match self {
            Expected::Stage => "select, where, enum, sort, trim or behead",
            Expected::Atom => "* or a quoted string",
            Expected::ClosingQuote => "a closing quote",
            Expected::Comparator => "= or like",
            Expected::Direction => "asc or desc",
            Expected::Separator => "| or the end of the query",
        }
    }
}

impl Fault {
    /// The error in words: what was looked for, and at which character.
    pub open spec fn message(self) -> Seq<char> {
        "expected "@ + self.expected.words() + " at character "@ + decimal(self.start as nat)
    }
}

impl SyntaxError {
    /// The error in words: what was looked for, and at which character.
    pub fn message(&self) -> (text: String)
        ensures
            text@ == self@.message(),
    {
        let mut text = String::from_str("expected ");
        text.append(self.expected.as_str());
        text.append(" at character ");
        text.append(decimal_string(self.start).as_str());
        text
    }
}

/// A node of a parse tree: the rule that matched, the text it matched, where
/// in the query that text stands (in characters), and the nodes inside it.
#[derive(Debug)]
pub struct Pair {
    pub rule: Rule,
    pub text: String,
    pub start: usize,
    pub end: usize,
    pub children: Vec<Pair>,
}

/// What a [`Pair`] stands for.
pub struct Node {
    pub rule: Rule,
    pub text: Seq<char>,
    pub start: int,
    pub end: int,
    pub children: Seq<Node>,
}

impl View for Pair {
    type V = Node;

    open spec fn view(&self) -> Node
        decreases self,
    {
        Node {
            rule: self.rule,
            text: self.text@,
            start: self.start as int,
            end: self.end as int,
            children: Seq::new(
                self.children@.len(),
                |i: int|
                    if 0 <= i < self.children@.len() {
                        self.children@[i]@
                    } else {
                        arbitrary()
                    },
            ),
        }
    }
}

/// What a sequence of pairs stands for.
pub open spec fn nodes(pairs: Seq<Pair>) -> Seq<Node> {
    pairs.map_values(|p: Pair| p@)
}

/// A pair stands for its own fields and for what its children stand for.
pub proof fn pair_view(pair: Pair)
    ensures
        pair@ == (Node {
            rule: pair.rule,
            text: pair.text@,
            start: pair.start as int,
            end: pair.end as int,
            children: nodes(pair.children@),
        }),
{
    let inside = Seq::new(
        pair.children@.len(),
        |i: int|
            if 0 <= i < pair.children@.len() {
                pair.children@[i]@
            } else {
                arbitrary()
            },
    );
    reveal_with_fuel(<Pair as View>::view, 2);
    assert(pair@.children.len() == inside.len());
    assert(pair@.children =~= nodes(pair.children@));
}

/// Makes a node of the parse tree.
pub fn pair(rule: Rule, text: String, start: usize, end: usize, children: Vec<Pair>) -> (made:
    Pair)
    ensures
        made@ == (Node {
            rule,
            text: text@,
            start: start as int,
            end: end as int,
            children: nodes(children@),
        }),
{
    let made = Pair { rule, text, start, end, children };
    proof {
        pair_view(made);
    }
    made
}

/// Whether `c` is a blank: a space, a tab or the end of a line.
pub open spec fn is_blank(c: char) -> bool {
    c == ' ' || c == '\t' || c == '\n' || c == '\r'
}

/// The first position at or after `i` that holds no blank.
pub open spec fn skip_blanks(s: Seq<char>, i: int) -> int
    decreases s.len() - i,
{
    if 0 <= i < s.len() && is_blank(s[i]) {
        skip_blanks(s, i + 1)
    } else {
        i
    }
}

/// The first position at or after `i` that holds a blank, or the length of
/// `s` where there is none.
pub open spec fn fragment_end(s: Seq<char>, i: int) -> int
    decreases s.len() - i,
{
    if 0 <= i < s.len() && !is_blank(s[i]) {
        fragment_end(s, i + 1)
    } else {
        i
    }
}

/// The first position at or after `i` that holds `quote`, or the length of
/// `s` where there is none.
pub open spec fn closing(s: Seq<char>, i: int, quote: char) -> int
    decreases s.len() - i,
{
    if 0 <= i < s.len() && s[i] != quote {
        closing(s, i + 1, quote)
    } else {
        i
    }
}

/// Whether `word` stands in `s` at position `i`.
pub open spec fn has_word(s: Seq<char>, i: int, word: Seq<char>) -> bool {
    0 <= i && i + word.len() <= s.len() && s.subrange(i, i + word.len()) == word
}

/// The node of `rule` that spans `start..end` of `s`.
pub open spec fn node(s: Seq<char>, rule: Rule, start: int, end: int, children: Seq<Node>) -> Node {
    Node { rule, text: s.subrange(start, end), start, end, children }
}

/// The failure to find `expected` at position `i` of `s`.
pub open spec fn fault(s: Seq<char>, i: int, expected: Expected) -> Fault {
    Fault { start: i, end: fragment_end(s, i), expected }
}

/// Whether an atom begins at position `i` of `s`.
pub open spec fn starts_atom(s: Seq<char>, i: int) -> bool {
    0 <= i < s.len() && (s[i] == '*' || s[i] == '"' || s[i] == '\'')
}

/// The atom at position `i` of `s`, with the position after it. An atom is
/// `*`, or a string between two `"` or two `'` that holds no quote of that
/// kind; its node spans the `*`, or what stands between the quotes.
pub open spec fn atom_at(s: Seq<char>, i: int) -> Result<(Node, int), Fault> {
    if !starts_atom(s, i) {
        Err(fault(s, i, Expected::Atom))
    } else if s[i] == '*' {
        Ok((node(s, Rule::Atom, i, i + 1, seq![]), i + 1))
    } else {
        let end = closing(s, i + 1, s[i]);
        if end < s.len() {
            Ok((node(s, Rule::Atom, i + 1, end, seq![]), end + 1))
        } else {
            Err(fault(s, i, Expected::ClosingQuote))
        }
    }
}

/// The atoms that follow position `i` of `s`, added to `found`, with the
/// position after the last of them. Atoms are separated by blanks, by a
/// comma, or by both; after a comma an atom must follow.
pub open spec fn more_atoms(s: Seq<char>, i: int, found: Seq<Node>) -> Result<
    (Seq<Node>, int),
    Fault,
>
    decreases s.len() - i,
{
    let k = skip_blanks(s, i);
    let comma = 0 <= k < s.len() && s[k] == ',';
    let at = if comma {
        skip_blanks(s, k + 1)
    } else {
        k
    };
    if i < 0 {
        Ok((found, i))
    } else if comma || starts_atom(s, at) {
        match atom_at(s, at) {
            Ok((atom, next)) => {
                proof {
                    skip_blanks_bounds(s, i);
                    skip_blanks_bounds(s, k + 1);
                    atom_at_bounds(s, at);
                }
                more_atoms(s, next, found.push(atom))
            },
            Err(fault) => Err(fault),
        }
    } else {
        Ok((found, i))
    }
}

/// The columns at position `i` of `s`: one atom or more.
pub open spec fn columns_at(s: Seq<char>, i: int) -> Result<(Node, int), Fault> {
    match atom_at(s, i) {
        Ok((first, next)) => match more_atoms(s, next, seq![first]) {
            Ok((atoms, end)) => Ok((node(s, Rule::Columns, i, end, atoms), end)),
            Err(fault) => Err(fault),
        },
        Err(fault) => Err(fault),
    }
}

/// The stage `keyword columns` at position `i` of `s`, as a node of `rule`.
pub open spec fn columns_stage(s: Seq<char>, i: int, rule: Rule, keyword: int) -> Result<
    (Node, int),
    Fault,
> {
    match columns_at(s, skip_blanks(s, i + keyword)) {
        Ok((columns, end)) => Ok((node(s, rule, i, end, seq![columns]), end)),
        Err(fault) => Err(fault),
    }
}

/// The comparator at position `i` of `s`: `=` or `like`.
pub open spec fn comparator_at(s: Seq<char>, i: int) -> Result<(Node, int), Fault> {
    if has_word(s, i, "="@) {
        Ok((node(s, Rule::Comparator, i, i + 1, seq![]), i + 1))
    } else if has_word(s, i, "like"@) {
        Ok((node(s, Rule::Comparator, i, i + 4, seq![]), i + 4))
    } else {
        Err(fault(s, i, Expected::Comparator))
    }
}

/// The direction at position `i` of `s`: `asc` or `desc`.
pub open spec fn direction_at(s: Seq<char>, i: int) -> Result<(Node, int), Fault> {
    if has_word(s, i, "asc"@) {
        Ok((node(s, Rule::Direction, i, i + 3, seq![]), i + 3))
    } else if has_word(s, i, "desc"@) {
        Ok((node(s, Rule::Direction, i, i + 4, seq![]), i + 4))
    } else {
        Err(fault(s, i, Expected::Direction))
    }
}

/// The stage `where column comparator pattern` whose keyword stands at
/// position `i` of `s`.
pub open spec fn comparison_at(s: Seq<char>, i: int) -> Result<(Node, int), Fault> {
    match atom_at(s, skip_blanks(s, i + 5)) {
        Ok((column, after_column)) => match comparator_at(s, skip_blanks(s, after_column)) {
            Ok((comparator, after_comparator)) => match atom_at(
                s,
                skip_blanks(s, after_comparator),
            ) {
                Ok((pattern, end)) => Ok(
                    (node(s, Rule::Comparison, i, end, seq![column, comparator, pattern]), end),
                ),
                Err(fault) => Err(fault),
            },
            Err(fault) => Err(fault),
        },
        Err(fault) => Err(fault),
    }
}

/// The stage `enum column` whose keyword stands at position `i` of `s`.
pub open spec fn enumerate_at(s: Seq<char>, i: int) -> Result<(Node, int), Fault> {
    match atom_at(s, skip_blanks(s, i + 4)) {
        Ok((column, end)) => Ok((node(s, Rule::Enumerate, i, end, seq![column]), end)),
        Err(fault) => Err(fault),
    }
}

/// What a `sort` sorts by, at position `i` of `s`: a column, or `num` and a
/// column.
pub open spec fn sort_key_at(s: Seq<char>, i: int) -> Result<(Node, int), Fault> {
    if has_word(s, i, "num"@) {
        match atom_at(s, skip_blanks(s, i + 3)) {
            Ok((column, end)) => Ok((node(s, Rule::NumericalSort, i, end, seq![column]), end)),
            Err(fault) => Err(fault),
        }
    } else {
        atom_at(s, i)
    }
}

/// The stage `sort [num] column direction` whose keyword stands at position
/// `i` of `s`.
pub open spec fn sort_at(s: Seq<char>, i: int) -> Result<(Node, int), Fault> {
    match sort_key_at(s, skip_blanks(s, i + 4)) {
        Ok((key, after_key)) => match direction_at(s, skip_blanks(s, after_key)) {
            Ok((direction, end)) => Ok((node(s, Rule::Sort, i, end, seq![key, direction]), end)),
            Err(fault) => Err(fault),
        },
        Err(fault) => Err(fault),
    }
}

/// The stage at position `i` of `s`, with the position after it.
pub open spec fn stage_at(s: Seq<char>, i: int) -> Result<(Node, int), Fault> {
    if has_word(s, i, "select"@) {
        columns_stage(s, i, Rule::Select, 6)
    } else if has_word(s, i, "where"@) {
        comparison_at(s, i)
    } else if has_word(s, i, "enum"@) {
        enumerate_at(s, i)
    } else if has_word(s, i, "sort"@) {
        sort_at(s, i)
    } else if has_word(s, i, "trim"@) {
        columns_stage(s, i, Rule::Trim, 4)
    } else if has_word(s, i, "behead"@) {
        Ok((node(s, Rule::Behead, i, i + 6, seq![]), i + 6))
    } else {
        Err(fault(s, i, Expected::Stage))
    }
}

/// The stages of `s` from position `i` on, added to `found`, and the node
/// for the end of the query after them. Stages are separated by `|`.
pub open spec fn stages_from(s: Seq<char>, i: int, found: Seq<Node>) -> Result<Seq<Node>, Fault>
    decreases s.len() - i,
{
    match stage_at(s, i) {
        Ok((stage, next)) => {
            let k = skip_blanks(s, next);
            if k >= s.len() {
                Ok(found.push(stage).push(node(s, Rule::EndOfInput, k, k, seq![])))
            } else if s[k] == '|' {
                proof {
                    stage_at_bounds(s, i);
                    skip_blanks_bounds(s, next);
                    skip_blanks_bounds(s, k + 1);
                }
                stages_from(s, skip_blanks(s, k + 1), found.push(stage))
            } else {
                Err(fault(s, k, Expected::Separator))
            }
        },
        Err(fault) => Err(fault),
    }
}

/// The parse tree of the query `s`: its stages in order and then the node
/// for the end of the query; or where and why `s` is no query.
pub open spec fn program(s: Seq<char>) -> Result<Seq<Node>, Fault> {
    stages_from(s, skip_blanks(s, 0), seq![])
}

/// `skip_blanks` moves forward, and not beyond the end.
pub proof fn skip_blanks_bounds(s: Seq<char>, i: int)
    ensures
        i <= skip_blanks(s, i),
        i <= s.len() ==> skip_blanks(s, i) <= s.len(),
    decreases s.len() - i,
{
    if 0 <= i < s.len() && is_blank(s[i]) {
        skip_blanks_bounds(s, i + 1);
    }
}

/// `closing` moves forward, and not beyond the end.
pub proof fn closing_bounds(s: Seq<char>, i: int, quote: char)
    ensures
        i <= closing(s, i, quote),
        i <= s.len() ==> closing(s, i, quote) <= s.len(),
    decreases s.len() - i,
{
    if 0 <= i < s.len() && s[i] != quote {
        closing_bounds(s, i + 1, quote);
    }
}

/// An atom is not empty and ends within the text.
pub proof fn atom_at_bounds(s: Seq<char>, i: int)
    ensures
        match atom_at(s, i) {
            Ok((atom, next)) => 0 <= i < next <= s.len(),
            Err(_) => true,
        },
{
    if starts_atom(s, i) {
        closing_bounds(s, i + 1, s[i]);
    }
}

/// What follows an atom ends within the text, and not before that atom.
pub proof fn more_atoms_bounds(s: Seq<char>, i: int, found: Seq<Node>)
    requires
        0 <= i <= s.len(),
    ensures
        match more_atoms(s, i, found) {
            Ok((atoms, end)) => i <= end <= s.len(),
            Err(_) => true,
        },
    decreases s.len() - i,
{
    let k = skip_blanks(s, i);
    skip_blanks_bounds(s, i);
    skip_blanks_bounds(s, k + 1);
    let comma = 0 <= k < s.len() && s[k] == ',';
    let at = if comma {
        skip_blanks(s, k + 1)
    } else {
        k
    };
    atom_at_bounds(s, at);
    if comma || starts_atom(s, at) {
        match atom_at(s, at) {
            Ok((atom, next)) => more_atoms_bounds(s, next, found.push(atom)),
            Err(_) => {},
        }
    }
}

/// A stage is not empty and ends within the text.
pub proof fn stage_at_bounds(s: Seq<char>, i: int)
    ensures
        match stage_at(s, i) {
            Ok((stage, next)) => 0 <= i < next <= s.len(),
            Err(_) => true,
        },
{
    reveal_strlit("select");
    reveal_strlit("where");
    reveal_strlit("enum");
    reveal_strlit("sort");
    reveal_strlit("trim");
    reveal_strlit("behead");
    reveal_strlit("num");
    reveal_strlit("asc");
    reveal_strlit("desc");
    reveal_strlit("like");
    reveal_strlit("=");
    if has_word(s, i, "select"@) {
        columns_stage_bounds(s, i, Rule::Select, 6);
    } else if has_word(s, i, "where"@) {
        let at = skip_blanks(s, i + 5);
        skip_blanks_bounds(s, i + 5);
        atom_at_bounds(s, at);
        match atom_at(s, at) {
            Ok((column, after_column)) => {
                let c = skip_blanks(s, after_column);
                skip_blanks_bounds(s, after_column);
                match comparator_at(s, c) {
                    Ok((comparator, after_comparator)) => {
                        skip_blanks_bounds(s, after_comparator);
                        atom_at_bounds(s, skip_blanks(s, after_comparator));
                    },
                    Err(_) => {},
                }
            },
            Err(_) => {},
        }
    } else if has_word(s, i, "enum"@) {
        skip_blanks_bounds(s, i + 4);
        atom_at_bounds(s, skip_blanks(s, i + 4));
    } else if has_word(s, i, "sort"@) {
        let k = skip_blanks(s, i + 4);
        skip_blanks_bounds(s, i + 4);
        skip_blanks_bounds(s, k + 3);
        atom_at_bounds(s, skip_blanks(s, k + 3));
        atom_at_bounds(s, k);
        match sort_key_at(s, k) {
            Ok((key, after_key)) => {
                skip_blanks_bounds(s, after_key);
            },
            Err(_) => {},
        }
    } else if has_word(s, i, "trim"@) {
        columns_stage_bounds(s, i, Rule::Trim, 4);
    }
}

proof fn columns_stage_bounds(s: Seq<char>, i: int, rule: Rule, keyword: int)
    requires
        0 <= i,
        0 < keyword,
        i + keyword <= s.len(),
    ensures
        match columns_stage(s, i, rule, keyword) {
            Ok((stage, next)) => 0 <= i < next <= s.len(),
            Err(_) => true,
        },
{
    let at = skip_blanks(s, i + keyword);
    skip_blanks_bounds(s, i + keyword);
    atom_at_bounds(s, at);
    match atom_at(s, at) {
        Ok((first, next)) => more_atoms_bounds(s, next, seq![first]),
        Err(_) => {},
    }
}

/// Whether a node has the form that the grammar gives to a stage: the rule
/// of a stage, and inside it the nodes that a stage of that rule holds.
pub open spec fn stage_shaped(node: Node) -> bool {
    match node.rule {
        Rule::Select | Rule::Trim => node.children.len() == 1 && node.children[0].children.len()
            >= 1,
        Rule::Comparison => node.children.len() == 3 && (node.children[1].text == "="@
            || node.children[1].text == "like"@),
        Rule::Enumerate => node.children.len() == 1,
        Rule::Sort => {
            &&& node.children.len() == 2
            &&& node.children[0].rule == Rule::NumericalSort ==> node.children[0].children.len()
                == 1
            &&& node.children[1].text == "asc"@ || node.children[1].text == "desc"@
        },
        Rule::Behead => true,
        _ => false,
    }
}

/// The atoms after the first are added to those found before.
pub proof fn more_atoms_grows(s: Seq<char>, i: int, found: Seq<Node>)
    requires
        0 <= i <= s.len(),
    ensures
        more_atoms(s, i, found) matches Ok((atoms, _)) ==> atoms.len() >= found.len(),
    decreases s.len() - i,
{
    let k = skip_blanks(s, i);
    skip_blanks_bounds(s, i);
    skip_blanks_bounds(s, k + 1);
    let comma = 0 <= k < s.len() && s[k] == ',';
    let at = if comma {
        skip_blanks(s, k + 1)
    } else {
        k
    };
    atom_at_bounds(s, at);
    if comma || starts_atom(s, at) {
        match atom_at(s, at) {
            Ok((atom, next)) => more_atoms_grows(s, next, found.push(atom)),
            Err(_) => {},
        }
    }
}

/// What the grammar finds as a stage has the form of a stage.
pub proof fn stage_at_shape(s: Seq<char>, i: int)
    ensures
        stage_at(s, i) matches Ok((stage, _)) ==> stage_shaped(stage),
{
    reveal_strlit("select");
    reveal_strlit("where");
    reveal_strlit("enum");
    reveal_strlit("sort");
    reveal_strlit("trim");
    reveal_strlit("num");
    reveal_strlit("asc");
    reveal_strlit("desc");
    reveal_strlit("like");
    reveal_strlit("=");
    if has_word(s, i, "select"@) {
        columns_stage_shape(s, i, Rule::Select, 6);
    } else if has_word(s, i, "where"@) {
    } else if has_word(s, i, "enum"@) {
    } else if has_word(s, i, "sort"@) {
    } else if has_word(s, i, "trim"@) {
        columns_stage_shape(s, i, Rule::Trim, 4);
    }
}

proof fn columns_stage_shape(s: Seq<char>, i: int, rule: Rule, keyword: int)
    requires
        0 <= i,
        0 < keyword,
        i + keyword <= s.len(),
    ensures
        columns_stage(s, i, rule, keyword) matches Ok((stage, _)) ==> stage.children.len() == 1
            && stage.children[0].children.len() >= 1 && stage.rule == rule,
{
    let at = skip_blanks(s, i + keyword);
    skip_blanks_bounds(s, i + keyword);
    atom_at_bounds(s, at);
    match atom_at(s, at) {
        Ok((first, next)) => more_atoms_grows(s, next, seq![first]),
        Err(_) => {},
    }
}

/// What the grammar finds as a query is a list of nodes that have the form of
/// a stage, and after them the node for the end of the query.
pub proof fn stages_from_shape(s: Seq<char>, i: int, found: Seq<Node>)
    requires
        forall|k: int| 0 <= k < found.len() ==> stage_shaped(#[trigger] found[k]),
    ensures
        stages_from(s, i, found) matches Ok(all) ==> all.len() > 0 && all.last().rule
            == Rule::EndOfInput && forall|k: int|
            0 <= k < all.len() - 1 ==> stage_shaped(#[trigger] all[k]),
    decreases s.len() - i,
{
    stage_at_shape(s, i);
    stage_at_bounds(s, i);
    match stage_at(s, i) {
        Ok((stage, next)) => {
            let k = skip_blanks(s, next);
            skip_blanks_bounds(s, next);
            skip_blanks_bounds(s, k + 1);
            if k < s.len() && s[k] == '|' {
                stages_from_shape(s, skip_blanks(s, k + 1), found.push(stage));
            }
        },
        Err(_) => {},
    }
}

/// What one step of the parser found, as the grammar states it.
pub open spec fn found(step: Result<(Pair, usize), SyntaxError>) -> Result<(Node, int), Fault> {
    match step {
        Ok((pair, next)) => Ok((pair@, next as int)),
        Err(error) => Err(error@),
    }
}

fn skip(chars: &Vec<char>, from: usize) -> (to: usize)
    requires
        from <= chars.len(),
    ensures
        to == skip_blanks(chars@, from as int),
        from <= to <= chars.len(),
{
    let mut to = from;
    while to < chars.len() && (chars[to] == ' ' || chars[to] == '\t' || chars[to] == '\n'
        || chars[to] == '\r')
        invariant
            from <= to <= chars.len(),
            skip_blanks(chars@, from as int) == skip_blanks(chars@, to as int),
        decreases chars.len() - to,
    {
        to += 1;
    }
    to
}

fn fail(chars: &Vec<char>, at: usize, expected: Expected) -> (error: SyntaxError)
    requires
        at <= chars.len(),
    ensures
        error@ == fault(chars@, at as int, expected),
{
    let mut end = at;
    while end < chars.len() && !(chars[end] == ' ' || chars[end] == '\t' || chars[end] == '\n'
        || chars[end] == '\r')
        invariant
            at <= end <= chars.len(),
            fragment_end(chars@, at as int) == fragment_end(chars@, end as int),
        decreases chars.len() - end,
    {
        end += 1;
    }
    SyntaxError { start: at, end, expected }
}

fn quote_from(chars: &Vec<char>, from: usize, quote: char) -> (to: usize)
    requires
        from <= chars.len(),
    ensures
        to == closing(chars@, from as int, quote),
        from <= to <= chars.len(),
{
    let mut to = from;
    while to < chars.len() && chars[to] != quote
        invariant
            from <= to <= chars.len(),
            closing(chars@, from as int, quote) == closing(chars@, to as int, quote),
        decreases chars.len() - to,
    {
        to += 1;
    }
    to
}

fn has(chars: &Vec<char>, at: usize, word: &str) -> (present: bool)
    requires
        at <= chars.len(),
    ensures
        present == has_word(chars@, at as int, word@),
{
    let letters = characters(word);
    let n = letters.len();
    if n > chars.len() - at {
        return false;
    }
    let mut k: usize = 0;
    while k < n
        invariant
            k <= n == letters@.len(),
            letters@ == word@,
            at + n <= chars.len(),
            chars@.subrange(at as int, at + k) == letters@.take(k as int),
        decreases n - k,
    {
        if chars[at + k] != letters[k] {
            assert(chars@.subrange(at as int, at + n)[k as int] != letters@[k as int]);
            return false;
        }
        assert(chars@.subrange(at as int, at + k + 1) =~= chars@.subrange(
            at as int,
            at + k,
        ).push(chars@[at + k]));
        assert(letters@.take(k + 1) =~= letters@.take(k as int).push(letters@[k as int]));
        k += 1;
    }
    assert(letters@.take(n as int) == letters@);
    true
}

fn make(text: &str, rule: Rule, start: usize, end: usize, children: Vec<Pair>) -> (made: Pair)
    requires
        start <= end <= text@.len(),
    ensures
        made@ == node(text@, rule, start as int, end as int, nodes(children@)),
{
    pair(rule, String::from_str(text.substring_char(start, end)), start, end, children)
}

fn parse_atom(text: &str, chars: &Vec<char>, at: usize) -> (step: Result<
    (Pair, usize),
    SyntaxError,
>)
    requires
        chars@ == text@,
        at <= chars.len(),
    ensures
        found(step) == atom_at(text@, at as int),
        step matches Ok((_, next)) ==> at < next <= chars.len(),
{
    if at >= chars.len() || !(chars[at] == '*' || chars[at] == '"' || chars[at] == '\'') {
        return Err(fail(chars, at, Expected::Atom));
    }
    if chars[at] == '*' {
        let atom = make(text, Rule::Atom, at, at + 1, Vec::new());
        assert(nodes(Seq::<Pair>::empty()) =~= seq![]);
        return Ok((atom, at + 1));
    }
    let end = quote_from(chars, at + 1, chars[at]);
    if end < chars.len() {
        let atom = make(text, Rule::Atom, at + 1, end, Vec::new());
        assert(nodes(Seq::<Pair>::empty()) =~= seq![]);
        Ok((atom, end + 1))
    } else {
        Err(fail(chars, at, Expected::ClosingQuote))
    }
}

fn parse_columns(text: &str, chars: &Vec<char>, at: usize) -> (step: Result<
    (Pair, usize),
    SyntaxError,
>)
    requires
        chars@ == text@,
        at <= chars.len(),
    ensures
        found(step) == columns_at(text@, at as int),
        step matches Ok((_, next)) ==> at < next <= chars.len(),
{
    let (first, after_first) = match parse_atom(text, chars, at) {
        Ok(step) => step,
        Err(error) => {
            return Err(error);
        },
    };
    let ghost rest = more_atoms(text@, after_first as int, seq![first@]);
    let ghost whole = columns_at(text@, at as int);
    let mut atoms: Vec<Pair> = Vec::new();
    atoms.push(first);
    assert(nodes(atoms@) =~= seq![first@]);
    let mut end = after_first;
    loop
        invariant
            chars@ == text@,
            at < end <= chars.len(),
            rest == more_atoms(text@, end as int, nodes(atoms@)),
            whole == columns_at(text@, at as int),
            whole == match rest {
                Ok((atoms, end)) => Ok((node(text@, Rule::Columns, at as int, end, atoms), end)),
                Err(fault) => Err(fault),
            },
        ensures
            rest == Ok::<(Seq<Node>, int), Fault>((nodes(atoms@), end as int)),
        decreases chars.len() - end,
    {
        let k = skip(chars, end);
        let comma = k < chars.len() && chars[k] == ',';
        let next_at = if comma {
            skip(chars, k + 1)
        } else {
            k
        };
        let starts = next_at < chars.len() && (chars[next_at] == '*' || chars[next_at] == '"'
            || chars[next_at] == '\'');
        if comma || starts {
            match parse_atom(text, chars, next_at) {
                Ok((atom, next)) => {
                    assert(nodes(atoms@.push(atom)) =~= nodes(atoms@).push(atom@));
                    atoms.push(atom);
                    end = next;
                },
                Err(error) => {
                    return Err(error);
                },
            }
        } else {
            break ;
        }
    }
    Ok((make(text, Rule::Columns, at, end, atoms), end))
}

fn parse_columns_stage(text: &str, chars: &Vec<char>, at: usize, rule: Rule, keyword: usize) -> (step:
    Result<(Pair, usize), SyntaxError>)
    requires
        chars@ == text@,
        at + keyword <= chars.len(),
    ensures
        found(step) == columns_stage(text@, at as int, rule, keyword as int),
        step matches Ok((_, next)) ==> at + keyword < next <= chars.len(),
{
    match parse_columns(text, chars, skip(chars, at + keyword)) {
        Ok((columns, end)) => {
            let mut children: Vec<Pair> = Vec::new();
            assert(nodes(children@.push(columns)) =~= seq![columns@]);
            children.push(columns);
            Ok((make(text, rule, at, end, children), end))
        },
        Err(error) => Err(error),
    }
}

fn parse_comparator(text: &str, chars: &Vec<char>, at: usize) -> (step: Result<
    (Pair, usize),
    SyntaxError,
>)
    requires
        chars@ == text@,
        at <= chars.len(),
    ensures
        found(step) == comparator_at(text@, at as int),
        step matches Ok((_, next)) ==> at < next <= chars.len(),
{
    proof {
        reveal_strlit("=");
        reveal_strlit("like");
        assert(nodes(Seq::<Pair>::empty()) =~= seq![]);
    }
    if has(chars, at, "=") {
        Ok((make(text, Rule::Comparator, at, at + 1, Vec::new()), at + 1))
    } else if has(chars, at, "like") {
        Ok((make(text, Rule::Comparator, at, at + 4, Vec::new()), at + 4))
    } else {
        Err(fail(chars, at, Expected::Comparator))
    }
}

fn parse_direction(text: &str, chars: &Vec<char>, at: usize) -> (step: Result<
    (Pair, usize),
    SyntaxError,
>)
    requires
        chars@ == text@,
        at <= chars.len(),
    ensures
        found(step) == direction_at(text@, at as int),
        step matches Ok((_, next)) ==> at < next <= chars.len(),
{
    proof {
        reveal_strlit("asc");
        reveal_strlit("desc");
        assert(nodes(Seq::<Pair>::empty()) =~= seq![]);
    }
    if has(chars, at, "asc") {
        Ok((make(text, Rule::Direction, at, at + 3, Vec::new()), at + 3))
    } else if has(chars, at, "desc") {
        Ok((make(text, Rule::Direction, at, at + 4, Vec::new()), at + 4))
    } else {
        Err(fail(chars, at, Expected::Direction))
    }
}

fn parse_comparison(text: &str, chars: &Vec<char>, at: usize) -> (step: Result<
    (Pair, usize),
    SyntaxError,
>)
    requires
        chars@ == text@,
        at + 5 <= chars.len(),
    ensures
        found(step) == comparison_at(text@, at as int),
        step matches Ok((_, next)) ==> at < next <= chars.len(),
{
    let (column, after_column) = match parse_atom(text, chars, skip(chars, at + 5)) {
        Ok(step) => step,
        Err(error) => {
            return Err(error);
        },
    };
    let (comparator, after_comparator) = match parse_comparator(
        text,
        chars,
        skip(chars, after_column),
    ) {
        Ok(step) => step,
        Err(error) => {
            return Err(error);
        },
    };
    let (pattern, end) = match parse_atom(text, chars, skip(chars, after_comparator)) {
        Ok(step) => step,
        Err(error) => {
            return Err(error);
        },
    };
    let mut children: Vec<Pair> = Vec::new();
    assert(nodes(children@.push(column).push(comparator).push(pattern)) =~= seq![
        column@,
        comparator@,
        pattern@,
    ]);
    children.push(column);
    children.push(comparator);
    children.push(pattern);
    Ok((make(text, Rule::Comparison, at, end, children), end))
}

fn parse_enumerate(text: &str, chars: &Vec<char>, at: usize) -> (step: Result<
    (Pair, usize),
    SyntaxError,
>)
    requires
        chars@ == text@,
        at + 4 <= chars.len(),
    ensures
        found(step) == enumerate_at(text@, at as int),
        step matches Ok((_, next)) ==> at < next <= chars.len(),
{
    match parse_atom(text, chars, skip(chars, at + 4)) {
        Ok((column, end)) => {
            let mut children: Vec<Pair> = Vec::new();
            assert(nodes(children@.push(column)) =~= seq![column@]);
            children.push(column);
            Ok((make(text, Rule::Enumerate, at, end, children), end))
        },
        Err(error) => Err(error),
    }
}

fn parse_sort_key(text: &str, chars: &Vec<char>, at: usize) -> (step: Result<
    (Pair, usize),
    SyntaxError,
>)
    requires
        chars@ == text@,
        at <= chars.len(),
    ensures
        found(step) == sort_key_at(text@, at as int),
        step matches Ok((_, next)) ==> at < next <= chars.len(),
{
    proof {
        reveal_strlit("num");
    }
    if has(chars, at, "num") {
        match parse_atom(text, chars, skip(chars, at + 3)) {
            Ok((column, end)) => {
                let mut children: Vec<Pair> = Vec::new();
                assert(nodes(children@.push(column)) =~= seq![column@]);
                children.push(column);
                Ok((make(text, Rule::NumericalSort, at, end, children), end))
            },
            Err(error) => Err(error),
        }
    } else {
        parse_atom(text, chars, at)
    }
}

fn parse_sort(text: &str, chars: &Vec<char>, at: usize) -> (step: Result<
    (Pair, usize),
    SyntaxError,
>)
    requires
        chars@ == text@,
        at + 4 <= chars.len(),
    ensures
        found(step) == sort_at(text@, at as int),
        step matches Ok((_, next)) ==> at < next <= chars.len(),
{
    let (key, after_key) = match parse_sort_key(text, chars, skip(chars, at + 4)) {
        Ok(step) => step,
        Err(error) => {
            return Err(error);
        },
    };
    let (direction, end) = match parse_direction(text, chars, skip(chars, after_key)) {
        Ok(step) => step,
        Err(error) => {
            return Err(error);
        },
    };
    let mut children: Vec<Pair> = Vec::new();
    assert(nodes(children@.push(key).push(direction)) =~= seq![key@, direction@]);
    children.push(key);
    children.push(direction);
    Ok((make(text, Rule::Sort, at, end, children), end))
}

fn parse_stage(text: &str, chars: &Vec<char>, at: usize) -> (step: Result<
    (Pair, usize),
    SyntaxError,
>)
    requires
        chars@ == text@,
        at <= chars.len(),
    ensures
        found(step) == stage_at(text@, at as int),
        step matches Ok((_, next)) ==> at < next <= chars.len(),
{
    proof {
        reveal_strlit("select");
        reveal_strlit("where");
        reveal_strlit("enum");
        reveal_strlit("sort");
        reveal_strlit("trim");
        reveal_strlit("behead");
    }
    if has(chars, at, "select") {
        parse_columns_stage(text, chars, at, Rule::Select, 6)
    } else if has(chars, at, "where") {
        parse_comparison(text, chars, at)
    } else if has(chars, at, "enum") {
        parse_enumerate(text, chars, at)
    } else if has(chars, at, "sort") {
        parse_sort(text, chars, at)
    } else if has(chars, at, "trim") {
        parse_columns_stage(text, chars, at, Rule::Trim, 4)
    } else if has(chars, at, "behead") {
        assert(nodes(Seq::<Pair>::empty()) =~= seq![]);
        Ok((make(text, Rule::Behead, at, at + 6, Vec::new()), at + 6))
    } else {
        Err(fail(chars, at, Expected::Stage))
    }
}

/// What [`parse`] returned, as the grammar states it.
pub open spec fn parsed(outcome: Result<Vec<Pair>, SyntaxError>) -> Result<Seq<Node>, Fault> {
    match outcome {
        Ok(pairs) => Ok(nodes(pairs@)),
        Err(error) => Err(error@),
    }
}

/// Parses the text of a query into its parse tree: one pair for each stage,
/// in order, and a last pair for the end of the query. Where the text does
/// not follow the grammar, the error tells where and what was looked for.
pub fn parse(text: &str) -> (outcome: Result<Vec<Pair>, SyntaxError>)
    ensures
        parsed(outcome) == program(text@),
{
    let chars = characters(text);
    let mut pairs: Vec<Pair> = Vec::new();
    let mut at = skip(&chars, 0);
    assert(nodes(pairs@) =~= seq![]);
    loop
        invariant
            chars@ == text@,
            at <= chars.len(),
            program(text@) == stages_from(text@, at as int, nodes(pairs@)),
        decreases chars.len() - at,
    {
        let (stage, next) = match parse_stage(text, &chars, at) {
            Ok(step) => step,
            Err(error) => {
                return Err(error);
            },
        };
        let k = skip(&chars, next);
        assert(nodes(pairs@.push(stage)) =~= nodes(pairs@).push(stage@));
        pairs.push(stage);
        if k >= chars.len() {
            let end = make(text, Rule::EndOfInput, k, k, Vec::new());
            assert(nodes(Seq::<Pair>::empty()) =~= seq![]);
            assert(nodes(pairs@.push(end)) =~= nodes(pairs@).push(end@));
            pairs.push(end);
            return Ok(pairs);
        } else if chars[k] == '|' {
            at = skip(&chars, k + 1);
        } else {
            return Err(fail(&chars, k, Expected::Separator));
        }
    }
}

} // verus!
