//! From tokens to the syntax tree.
//!
//! The parser reads statements from left to right. A statement starts with a
//! keyword; what follows a species header belongs to that species until the
//! next header or the end of the input. Words that start no statement are
//! passed over.

use vstd::prelude::*;
use vstd::string::*;
use crate::dsl::ast::{
    AgentDef, AgentDefView, ConfigAst, ConfigView, Species, SpeciesKind, SpeciesView, StatusRule,
    RuleView, Value, ValueView, VarDef, VarDefView, World, WorldView,
};
use crate::dsl::token::{Token, TokenKind, TokenKindView, TokenView};
use crate::dsl::tokenizer::{
    classify, code_end, lemma_classify_number, lemma_first_word, lemma_no_point_no_float,
    lemma_one_line, line_tokens, tokenize, tokenize_spec, words_in,
};
use crate::utils::text::{
    bits, bits_of, decimal_text, hex_text, is_space, lemma_decimal_text, lemma_find_in_none, push_decimal, push_hex, push_signed_decimal, signed_decimal_text,
};
use crate::utils::vecs::push_deep;

verus! {

/// The statements that are only allowed inside a species.
#[derive(Debug, Clone, Copy, PartialEq, Eq, Structural)]
pub enum Directive {
    Var,
    Status,
    Sensor,
    Field,
    Block,
}

/// Why a configuration was rejected. Each error carries the line of the
/// keyword of the statement at fault.
#[derive(Debug, Clone, Copy, PartialEq, Eq, Structural)]
pub enum ParseError {
    /// `world` was not followed by two integers and a third word.
    InvalidWorldSyntax { line: usize },
    /// The third operand of `world` is neither an identifier nor an integer.
    ExpectedWorldColor { line: usize },
    /// A species header without a name.
    ExpectedSpeciesName { line: usize },
    /// A species header without a colour.
    ExpectedSpeciesColor { line: usize },
    /// A statement of a species before any species header.
    OutsideSpecies { directive: Directive, line: usize },
    /// `var` without a name.
    ExpectedVariableName { line: usize },
    /// `status` without a status.
    ExpectedStatusName { line: usize },
}

impl Directive {
    /// The keyword of the statement.
    pub open spec fn keyword_spec(self) -> Seq<char> {
        match self {
            Directive::Var => "var"@,
            Directive::Status => "status"@,
            Directive::Sensor => "sensor"@,
            Directive::Field => "field"@,
            Directive::Block => "block"@,
        }
    }

    /// The keyword of the statement.
    pub fn keyword(&self) -> (k: &'static str)
        ensures
            k@ == self.keyword_spec(),
    {
        match self {
            Directive::Var => "var",
            Directive::Status => "status",
            Directive::Sensor => "sensor",
            Directive::Field => "field",
            Directive::Block => "block",
        }
    }
}

impl ParseError {
    /// The line of the statement at fault.
    pub open spec fn line_spec(self) -> usize {
        match self {
            ParseError::InvalidWorldSyntax { line } => line,
            ParseError::ExpectedWorldColor { line } => line,
            ParseError::ExpectedSpeciesName { line } => line,
            ParseError::ExpectedSpeciesColor { line } => line,
            ParseError::OutsideSpecies { line, .. } => line,
            ParseError::ExpectedVariableName { line } => line,
            ParseError::ExpectedStatusName { line } => line,
        }
    }

    /// What went wrong, without the line.
    pub open spec fn headline(self) -> Seq<char> {
        match self {
            ParseError::InvalidWorldSyntax { .. } => "Invalid world syntax"@,
            ParseError::ExpectedWorldColor { .. } => "Expected color identifier or number"@,
            ParseError::ExpectedSpeciesName { .. } => "Expected name after species"@,
            ParseError::ExpectedSpeciesColor { .. } => "Expected color"@,
            ParseError::OutsideSpecies { directive, .. } => directive.keyword_spec()
                + " outside of species"@,
            ParseError::ExpectedVariableName { .. } => "Expected variable name after var"@,
            ParseError::ExpectedStatusName { .. } => "Expected status name"@,
        }
    }

    /// The message: the headline, then ` at line ` and the line in decimal.
    pub open spec fn message_spec(self) -> Seq<char> {
        self.headline() + " at line "@ + decimal_text(self.line_spec() as nat)
    }

    /// The line of the statement at fault.
    pub fn line(&self) -> (line: usize)
        ensures
            line == self.line_spec(),
    {
        match self {
            ParseError::InvalidWorldSyntax { line } => *line,
            ParseError::ExpectedWorldColor { line } => *line,
            ParseError::ExpectedSpeciesName { line } => *line,
            ParseError::ExpectedSpeciesColor { line } => *line,
            ParseError::OutsideSpecies { line, .. } => *line,
            ParseError::ExpectedVariableName { line } => *line,
            ParseError::ExpectedStatusName { line } => *line,
        }
    }

    /// The message for the operator.
    pub fn message(&self) -> (text: String)
        ensures
            text@ == self.message_spec(),
    {
        let mut text = String::new();
        assert(text@ + self.headline() =~= self.headline());
        match self {
            ParseError::InvalidWorldSyntax { .. } => text.append("Invalid world syntax"),
            ParseError::ExpectedWorldColor { .. } => text.append(
                "Expected color identifier or number",
            ),
            ParseError::ExpectedSpeciesName { .. } => text.append("Expected name after species"),
            ParseError::ExpectedSpeciesColor { .. } => text.append("Expected color"),
            ParseError::OutsideSpecies { directive, .. } => {
                text.append(directive.keyword());
                text.append(" outside of species");
                assert(text@ =~= self.headline());
            },
            ParseError::ExpectedVariableName { .. } => text.append(
                "Expected variable name after var",
            ),
            ParseError::ExpectedStatusName { .. } => text.append("Expected status name"),
        }
        text.append(" at line ");
        push_decimal(&mut text, self.line() as u64);
        text
    }
}

/// What the parser has gathered so far: the finished parts of the
/// configuration, and the species that is still open.
pub struct ParseState {
    pub world: Option<WorldView>,
    pub species: Seq<SpeciesView>,
    pub agents: Seq<AgentDefView>,
    pub current: Option<SpeciesView>,
}

/// The outcome of one statement: an error, or the position after it and the
/// new state.
pub enum Step {
    Fail(ParseError),
    Next { at: int, state: ParseState },
}

/// The state before the first token.
pub open spec fn initial_state() -> ParseState {
    ParseState { world: None, species: seq![], agents: seq![], current: None }
}

/// `state` with the open species, if any, moved to the end of the list.
pub open spec fn flushed(state: ParseState) -> ParseState {
    match state.current {
        Some(sp) => ParseState { species: state.species.push(sp), current: None, ..state },
        None => state,
    }
}

/// The configuration at the end of the input.
pub open spec fn finished(state: ParseState) -> ConfigView {
    ConfigView {
        world: state.world,
        species: flushed(state).species,
        agents: state.agents,
    }
}

/// A grid dimension as the machine reads an integer: a negative one wraps
/// around.
pub open spec fn dimension(n: i32) -> nat {
    if n >= 0 {
        n as nat
    } else {
        (n + usize::MAX + 1) as nat
    }
}

/// The colour that a token gives: an identifier as it is, an integer by its
/// 32-bit pattern in capital hexadecimal. Other tokens give none.
pub open spec fn color_text(kind: TokenKindView) -> Option<Seq<char>> {
    match kind {
        TokenKindView::Ident(c) => Some(c),
        TokenKindView::Number(n) => Some(hex_text(bits_of(n))),
        _ => None,
    }
}

/// The colour at position `i`, if there is a token and it gives one.
pub open spec fn color_at(tokens: Seq<TokenView>, i: int) -> Option<Seq<char>> {
    if 0 <= i < tokens.len() {
        color_text(tokens[i].kind)
    } else {
        None
    }
}

/// The identifier at position `i`, if there is one.
pub open spec fn ident_at(tokens: Seq<TokenView>, i: int) -> Option<Seq<char>> {
    if 0 <= i < tokens.len() {
        match tokens[i].kind {
            TokenKindView::Ident(w) => Some(w),
            _ => None,
        }
    } else {
        None
    }
}

/// The integer at position `i`, if there is one.
pub open spec fn number_at(tokens: Seq<TokenView>, i: int) -> Option<i32> {
    if 0 <= i < tokens.len() {
        match tokens[i].kind {
            TokenKindView::Number(n) => Some(n),
            _ => None,
        }
    } else {
        None
    }
}

/// The family that a species keyword names.
pub open spec fn species_keyword(w: Seq<char>) -> Option<SpeciesKind> {
    if w == "mineral"@ {
        Some(SpeciesKind::Mineral)
    } else if w == "vegetal"@ {
        Some(SpeciesKind::Vegetal)
    } else if w == "animal"@ {
        Some(SpeciesKind::Animal)
    } else {
        None
    }
}

/// A species as its header declares it, with nothing in it yet.
pub open spec fn new_species(kind: SpeciesKind, name: Seq<char>, color: Seq<char>) -> SpeciesView {
    SpeciesView {
        kind,
        name,
        color,
        vars: seq![],
        statuses: seq![],
        births: seq![],
        fields: seq![],
        sensors: seq![],
    }
}

/// `world <cols> <rows> <color>`: sets the world; a later one replaces an
/// earlier one.
pub open spec fn world_statement(tokens: Seq<TokenView>, i: int, state: ParseState) -> Step {
    let line = tokens[i].line as usize;
    match (number_at(tokens, i + 1), number_at(tokens, i + 2)) {
        (Some(cols), Some(rows)) => if i + 3 < tokens.len() {
            match color_at(tokens, i + 3) {
                Some(color) => Step::Next {
                    at: i + 4,
                    state: ParseState {
                        world: Some(
                            WorldView { cols: dimension(cols), rows: dimension(rows), color },
                        ),
                        ..state
                    },
                },
                None => Step::Fail(ParseError::ExpectedWorldColor { line }),
            }
        } else {
            Step::Fail(ParseError::InvalidWorldSyntax { line })
        },
        _ => Step::Fail(ParseError::InvalidWorldSyntax { line }),
    }
}

/// `mineral|vegetal|animal <name> <color>`: closes the open species and
/// opens a new one.
pub open spec fn species_statement(
    tokens: Seq<TokenView>,
    i: int,
    state: ParseState,
    kind: SpeciesKind,
) -> Step {
    let line = tokens[i].line as usize;
    match ident_at(tokens, i + 1) {
        None => Step::Fail(ParseError::ExpectedSpeciesName { line }),
        Some(name) => match color_at(tokens, i + 2) {
            None => Step::Fail(ParseError::ExpectedSpeciesColor { line }),
            Some(color) => Step::Next {
                at: i + 3,
                state: ParseState {
                    current: Some(new_species(kind, name, color)),
                    ..flushed(state)
                },
            },
        },
    }
}

/// The variable that `var <name>` declares: it starts at zero and does not
/// change by itself.
pub open spec fn plain_var(name: Seq<char>) -> VarDefView {
    VarDefView { name, init_value: ValueView::Int(0), timestep: 0 }
}

/// The rule that `status <name>` declares: it has no guard.
pub open spec fn plain_rule(status: Seq<char>) -> RuleView {
    RuleView { variable: None, less_than: None, threshold: None, status }
}

/// `var <name>`: adds a variable to the open species.
pub open spec fn var_statement(tokens: Seq<TokenView>, i: int, state: ParseState) -> Step {
    let line = tokens[i].line as usize;
    match state.current {
        None => Step::Fail(ParseError::OutsideSpecies { directive: Directive::Var, line }),
        Some(sp) => match ident_at(tokens, i + 1) {
            None => Step::Fail(ParseError::ExpectedVariableName { line }),
            Some(name) => Step::Next {
                at: i + 2,
                state: ParseState {
                    current: Some(SpeciesView { vars: sp.vars.push(plain_var(name)), ..sp }),
                    ..state
                },
            },
        },
    }
}

/// `status <name>`: adds an unguarded status rule to the open species.
pub open spec fn status_statement(tokens: Seq<TokenView>, i: int, state: ParseState) -> Step {
    let line = tokens[i].line as usize;
    match state.current {
        None => Step::Fail(ParseError::OutsideSpecies { directive: Directive::Status, line }),
        Some(sp) => match ident_at(tokens, i + 1) {
            None => Step::Fail(ParseError::ExpectedStatusName { line }),
            Some(name) => Step::Next {
                at: i + 2,
                state: ParseState {
                    current: Some(
                        SpeciesView { statuses: sp.statuses.push(plain_rule(name)), ..sp },
                    ),
                    ..state
                },
            },
        },
    }
}

/// The position of the first end-of-line token from `i` on, or the length of
/// the input if none follows.
pub open spec fn line_end(tokens: Seq<TokenView>, i: int) -> int
    decreases tokens.len() - i,
{
    if i < 0 || i >= tokens.len() {
        i
    } else if tokens[i].kind == TokenKindView::Eol {
        i
    } else {
        line_end(tokens, i + 1)
    }
}

/// A line ends at or behind the position it is looked for from, and within
/// the input; no end-of-line token stands before its end.
pub proof fn lemma_line_end(tokens: Seq<TokenView>, i: int)
    requires
        0 <= i <= tokens.len(),
    ensures
        i <= line_end(tokens, i) <= tokens.len(),
        line_end(tokens, i) < tokens.len() ==> tokens[line_end(tokens, i)].kind
            == TokenKindView::Eol,
        forall|k: int| i <= k < line_end(tokens, i) ==> (#[trigger] tokens[k]).kind
            != TokenKindView::Eol,
    decreases tokens.len() - i,
{
    if i < tokens.len() && tokens[i].kind != TokenKindView::Eol {
        lemma_line_end(tokens, i + 1);
    }
}

/// `sensor`, `field`, `block`: allowed only inside a species. The rest of
/// the statement, up to the end of its line, is passed over, whatever it
/// holds, and nothing is recorded.
pub open spec fn marker_statement(
    tokens: Seq<TokenView>,
    i: int,
    state: ParseState,
    directive: Directive,
) -> Step {
    let line = tokens[i].line as usize;
    match state.current {
        None => Step::Fail(ParseError::OutsideSpecies { directive, line }),
        Some(_) => Step::Next { at: line_end(tokens, i + 1), state },
    }
}

/// The text that a token adds to a pattern or to a position in brackets. End
/// of line and floats add none: they end it.
pub open spec fn piece(kind: TokenKindView) -> Option<Seq<char>> {
    match kind {
        TokenKindView::Ident(s) => Some(s),
        TokenKindView::Symbol(s) => Some(s),
        TokenKindView::Number(n) => Some(signed_decimal_text(n as int)),
        _ => None,
    }
}

/// A species pattern that is not a single identifier: the pieces from `i` on,
/// glued together, and the position of the token that ends them.
pub open spec fn pattern_scan(tokens: Seq<TokenView>, i: int) -> (Seq<char>, int)
    decreases tokens.len() - i,
{
    if i < 0 || i >= tokens.len() {
        (seq![], i)
    } else {
        match piece(tokens[i].kind) {
            None => (seq![], i),
            Some(text) => {
                let rest = pattern_scan(tokens, i + 1);
                (text + rest.0, rest.1)
            },
        }
    }
}

/// The inside of a position in brackets, from `i` on, up to and including the
/// closing `)`; and the position after it. It also ends, without `)`, before
/// a token that adds no text and at the end of the input.
pub open spec fn bracket_scan(tokens: Seq<TokenView>, i: int) -> (Seq<char>, int)
    decreases tokens.len() - i,
{
    if i < 0 || i >= tokens.len() {
        (seq![], i)
    } else if tokens[i].kind == TokenKindView::Symbol(")"@) {
        (seq![')'], i + 1)
    } else {
        match piece(tokens[i].kind) {
            None => (seq![], i),
            Some(text) => {
                let rest = bracket_scan(tokens, i + 1);
                (text + rest.0, rest.1)
            },
        }
    }
}

/// A scan inside brackets ends at or behind its start and within the input.
pub proof fn lemma_bracket_scan_advances(tokens: Seq<TokenView>, i: int)
    requires
        0 <= i <= tokens.len(),
    ensures
        i <= bracket_scan(tokens, i).1 <= tokens.len(),
    decreases tokens.len() - i,
{
    if i < tokens.len() && tokens[i].kind != TokenKindView::Symbol(")"@) && piece(
        tokens[i].kind,
    ) is Some {
        lemma_bracket_scan_advances(tokens, i + 1);
    }
}

/// The positions of an `agent` statement, from `i` to the end of the line:
/// each identifier is one position, each `(` starts one in brackets, and
/// other tokens are passed over. Also gives the position of the token that
/// ends the line.
pub open spec fn positions_scan(tokens: Seq<TokenView>, i: int) -> (Seq<Seq<char>>, int)
    decreases tokens.len() - i,
    via positions_scan_decreases
{
    if i < 0 || i >= tokens.len() {
        (seq![], i)
    } else {
        match tokens[i].kind {
            TokenKindView::Eol => (seq![], i),
            TokenKindView::Ident(s) => {
                let rest = positions_scan(tokens, i + 1);
                (seq![s] + rest.0, rest.1)
            },
            TokenKindView::Symbol(s) => if s == "("@ {
                let inner = bracket_scan(tokens, i + 1);
                let rest = positions_scan(tokens, inner.1);
                (seq![seq!['('] + inner.0] + rest.0, rest.1)
            } else {
                positions_scan(tokens, i + 1)
            },
            _ => positions_scan(tokens, i + 1),
        }
    }
}

#[via_fn]
proof fn positions_scan_decreases(tokens: Seq<TokenView>, i: int) {
    if 0 <= i < tokens.len() {
        lemma_bracket_scan_advances(tokens, i + 1);
    }
}

/// A pattern scan ends at or behind its start and within the input.
pub proof fn lemma_pattern_scan_advances(tokens: Seq<TokenView>, i: int)
    requires
        0 <= i <= tokens.len(),
    ensures
        i <= pattern_scan(tokens, i).1 <= tokens.len(),
    decreases tokens.len() - i,
{
    if i < tokens.len() && piece(tokens[i].kind) is Some {
        lemma_pattern_scan_advances(tokens, i + 1);
    }
}

/// A scan of positions ends at or behind its start and within the input.
pub proof fn lemma_positions_scan_advances(tokens: Seq<TokenView>, i: int)
    requires
        0 <= i <= tokens.len(),
    ensures
        i <= positions_scan(tokens, i).1 <= tokens.len(),
    decreases tokens.len() - i,
{
    if i < tokens.len() {
        match tokens[i].kind {
            TokenKindView::Eol => {},
            TokenKindView::Symbol(s) => {
                if s == "("@ {
                    lemma_bracket_scan_advances(tokens, i + 1);
                    lemma_positions_scan_advances(tokens, bracket_scan(tokens, i + 1).1);
                } else {
                    lemma_positions_scan_advances(tokens, i + 1);
                }
            },
            _ => {
                lemma_positions_scan_advances(tokens, i + 1);
            },
        }
    }
}

/// The species pattern of an `agent` statement whose first operand is at
/// `i`: a single identifier, or else the glued pieces up to the end of the
/// line. Also gives the position after the pattern.
pub open spec fn pattern_at(tokens: Seq<TokenView>, i: int) -> (Seq<char>, int) {
    match ident_at(tokens, i) {
        Some(s) => (s, i + 1),
        None => pattern_scan(tokens, i),
    }
}

/// `agent <pattern> <position>...`: records a placement. A bare `agent` at
/// the very end of the input records nothing.
pub open spec fn agent_statement(tokens: Seq<TokenView>, i: int, state: ParseState) -> Step {
    if i + 1 >= tokens.len() {
        Step::Next { at: i + 1, state }
    } else {
        let pattern = pattern_at(tokens, i + 1);
        let positions = positions_scan(tokens, pattern.1);
        Step::Next {
            at: positions.1,
            state: ParseState {
                agents: state.agents.push(
                    AgentDefView { species_pattern: pattern.0, positions: positions.0 },
                ),
                ..state
            },
        }
    }
}

/// The statement that starts at token `i`.
pub open spec fn statement(tokens: Seq<TokenView>, i: int, state: ParseState) -> Step {
    match tokens[i].kind {
        TokenKindView::Ident(w) => if w == "world"@ {
            world_statement(tokens, i, state)
        } else if species_keyword(w) is Some {
            species_statement(tokens, i, state, species_keyword(w)->Some_0)
        } else if w == "var"@ {
            var_statement(tokens, i, state)
        } else if w == "status"@ {
            status_statement(tokens, i, state)
        } else if w == "sensor"@ {
            marker_statement(tokens, i, state, Directive::Sensor)
        } else if w == "field"@ {
            marker_statement(tokens, i, state, Directive::Field)
        } else if w == "block"@ {
            marker_statement(tokens, i, state, Directive::Block)
        } else if w == "agent"@ {
            agent_statement(tokens, i, state)
        } else {
            Step::Next { at: i + 1, state }
        },
        _ => Step::Next { at: i + 1, state },
    }
}

/// Every statement takes at least one token and ends within the input.
pub proof fn lemma_statement_advances(tokens: Seq<TokenView>, i: int, state: ParseState)
    requires
        0 <= i < tokens.len(),
    ensures
        statement(tokens, i, state) matches Step::Next { at, .. } ==> i < at <= tokens.len(),
{
    lemma_line_end(tokens, i + 1);
    if i + 1 < tokens.len() {
        lemma_pattern_scan_advances(tokens, i + 1);
        lemma_positions_scan_advances(tokens, pattern_at(tokens, i + 1).1);
    }
}

/// The result of parsing the tokens from `i` on, starting in `state`.
pub open spec fn parse_from(tokens: Seq<TokenView>, i: int, state: ParseState) -> Result<
    ConfigView,
    ParseError,
>
    decreases tokens.len() - i,
    via parse_from_decreases
{
    if i < 0 || i >= tokens.len() {
        Ok(finished(state))
    } else {
        match statement(tokens, i, state) {
            Step::Fail(e) => Err(e),
            Step::Next { at, state } => parse_from(tokens, at, state),
        }
    }
}

#[via_fn]
proof fn parse_from_decreases(tokens: Seq<TokenView>, i: int, state: ParseState) {
    if 0 <= i < tokens.len() {
        lemma_statement_advances(tokens, i, state);
    }
}

/// The configuration that a token sequence describes, or why it describes
/// none.
pub open spec fn parse_spec(tokens: Seq<TokenView>) -> Result<ConfigView, ParseError> {
    parse_from(tokens, 0, initial_state())
}


/// The state that the parser's variables stand for.
pub open spec fn state_of(config: ConfigAst, current: Option<Species>) -> ParseState {
    ParseState {
        world: config.world.deep_view(),
        species: config.species.deep_view(),
        agents: config.agents.deep_view(),
        current: current.deep_view(),
    }
}

/// `r` is the result `expected`, up to views.
pub open spec fn agrees(r: Result<ConfigAst, ParseError>, expected: Result<ConfigView, ParseError>) -> bool {
    match r {
        Ok(config) => expected == Ok::<ConfigView, ParseError>(config.deep_view()),
        Err(e) => expected == Err::<ConfigView, ParseError>(e),
    }
}

fn number_of(tokens: &[Token], at: usize, ahead: usize) -> (r: Option<i32>)
    requires
        at < tokens.len(),
    ensures
        r == number_at(tokens.deep_view(), at + ahead),
{
    if ahead < tokens.len() - at {
        match &tokens[at + ahead].kind {
            TokenKind::Number(n) => Some(*n),
            _ => None,
        }
    } else {
        None
    }
}

fn ident_of(tokens: &[Token], at: usize, ahead: usize) -> (r: Option<String>)
    requires
        at < tokens.len(),
    ensures
        r.deep_view() == ident_at(tokens.deep_view(), at + ahead),
{
    if ahead < tokens.len() - at {
        match &tokens[at + ahead].kind {
            TokenKind::Ident(s) => Some(s.clone()),
            _ => None,
        }
    } else {
        None
    }
}

fn color_of(tokens: &[Token], at: usize, ahead: usize) -> (r: Option<String>)
    requires
        at < tokens.len(),
    ensures
        r.deep_view() == color_at(tokens.deep_view(), at + ahead),
{
    if ahead < tokens.len() - at {
        match &tokens[at + ahead].kind {
            TokenKind::Ident(s) => Some(s.clone()),
            TokenKind::Number(n) => {
                let mut text = String::new();
                push_hex(&mut text, bits(*n));
                assert(text@ =~= hex_text(bits_of(*n)));
                Some(text)
            },
            _ => None,
        }
    } else {
        None
    }
}

fn wrap_dimension(n: i32) -> (r: usize)
    ensures
        r == dimension(n),
{
    if n >= 0 {
        n as usize
    } else {
        usize::MAX - ((-(n + 1)) as usize)
    }
}

/// Appends the text that `kind` adds, if it adds any.
fn push_piece(kind: &TokenKind, out: &mut String) -> (added: bool)
    ensures
        added == piece(kind@) is Some,
        added ==> final(out)@ == old(out)@ + piece(kind@)->Some_0,
        !added ==> final(out)@ == old(out)@,
{
    match kind {
        TokenKind::Ident(s) => {
            out.append(s.as_str());
            true
        },
        TokenKind::Symbol(s) => {
            out.append(s.as_str());
            true
        },
        TokenKind::Number(n) => {
            push_signed_decimal(out, *n);
            true
        },
        _ => false,
    }
}

fn scan_pattern(tokens: &[Token], start: usize) -> (r: (String, usize))
    requires
        start <= tokens.len(),
    ensures
        (r.0@, r.1 as int) == pattern_scan(tokens.deep_view(), start as int),
        start <= r.1 <= tokens.len(),
{
    let ghost tv = tokens.deep_view();
    let mut pattern = String::new();
    let mut j: usize = start;
    while j < tokens.len()
        invariant
            start <= j <= tokens.len(),
            tv == tokens.deep_view(),
            pattern_scan(tv, start as int) == (
                pattern@ + pattern_scan(tv, j as int).0,
                pattern_scan(tv, j as int).1,
            ),
        decreases tokens.len() - j,
    {
        let ghost before = pattern@;
        let added = push_piece(&tokens[j].kind, &mut pattern);
        if !added {
            assert(before + Seq::<char>::empty() =~= before);
            return (pattern, j);
        }
        assert(before + (piece(tv[j as int].kind)->Some_0 + pattern_scan(tv, j + 1).0) =~= pattern@
            + pattern_scan(tv, j + 1).0);
        j += 1;
    }
    assert(pattern@ + Seq::<char>::empty() =~= pattern@);
    (pattern, j)
}

fn scan_bracket(tokens: &[Token], start: usize, out: &mut String) -> (next: usize)
    requires
        start <= tokens.len(),
    ensures
        final(out)@ == old(out)@ + bracket_scan(tokens.deep_view(), start as int).0,
        next == bracket_scan(tokens.deep_view(), start as int).1,
        start <= next <= tokens.len(),
{
    let ghost tv = tokens.deep_view();
    let ghost base = out@;
    let ghost done = Seq::<char>::empty();
    let mut j: usize = start;
    assert(base + done =~= base);
    while j < tokens.len()
        invariant
            start <= j <= tokens.len(),
            tv == tokens.deep_view(),
            base == old(out)@,
            out@ == base + done,
            bracket_scan(tv, start as int) == (
                done + bracket_scan(tv, j as int).0,
                bracket_scan(tv, j as int).1,
            ),
        decreases tokens.len() - j,
    {
        let closing = match &tokens[j].kind {
            TokenKind::Symbol(s) => s.as_str().eq(")"),
            _ => false,
        };
        assert(closing == (tv[j as int].kind == TokenKindView::Symbol(")"@)));
        if closing {
            out.push(')');
            proof {
                assert(out@ =~= base + (done + seq![')']));
            }
            return j + 1;
        }
        let ghost before = out@;
        let added = push_piece(&tokens[j].kind, out);
        if !added {
            assert(done + Seq::<char>::empty() =~= done);
            return j;
        }
        proof {
            let text = piece(tv[j as int].kind)->Some_0;
            assert(done + (text + bracket_scan(tv, j + 1).0) =~= (done + text) + bracket_scan(
                tv,
                j + 1,
            ).0);
            assert(out@ =~= base + (done + text));
            done = done + text;
        }
        j += 1;
    }
    assert(done + Seq::<char>::empty() =~= done);
    j
}

fn scan_positions(tokens: &[Token], start: usize) -> (r: (Vec<String>, usize))
    requires
        start <= tokens.len(),
    ensures
        (r.0.deep_view(), r.1 as int) == positions_scan(tokens.deep_view(), start as int),
        start <= r.1 <= tokens.len(),
{
    let ghost tv = tokens.deep_view();
    let mut positions: Vec<String> = Vec::new();
    let mut j: usize = start;
    assert(positions.deep_view() =~= Seq::<Seq<char>>::empty());
    assert(positions.deep_view() + positions_scan(tv, j as int).0 =~= positions_scan(
        tv,
        j as int,
    ).0);
    while j < tokens.len()
        invariant
            start <= j <= tokens.len(),
            tv == tokens.deep_view(),
            positions_scan(tv, start as int) == (
                positions.deep_view() + positions_scan(tv, j as int).0,
                positions_scan(tv, j as int).1,
            ),
        decreases tokens.len() - j,
    {
        let ghost before = positions.deep_view();
        match &tokens[j].kind {
            TokenKind::Eol => {
                assert(before + Seq::<Seq<char>>::empty() =~= before);
                return (positions, j);
            },
            TokenKind::Ident(s) => {
                push_deep(&mut positions, s.clone());
                assert(before + (seq![s@] + positions_scan(tv, j + 1).0) =~= before.push(s@)
                    + positions_scan(tv, j + 1).0);
                j += 1;
            },
            TokenKind::Symbol(s) => {
                if s.as_str().eq("(") {
                    let mut expr = String::new();
                    expr.push('(');
                    assert(expr@ =~= seq!['(']);
                    let next = scan_bracket(tokens, j + 1, &mut expr);
                    let ghost inner = bracket_scan(tv, j + 1);
                    push_deep(&mut positions, expr);
                    assert(before + (seq![seq!['('] + inner.0] + positions_scan(tv, inner.1).0)
                        =~= before.push(seq!['('] + inner.0) + positions_scan(tv, inner.1).0);
                    j = next;
                } else {
                    j += 1;
                }
            },
            _ => {
                j += 1;
            },
        }
    }
    assert(positions.deep_view() + Seq::<Seq<char>>::empty() =~= positions.deep_view());
    (positions, j)
}

/// The position of the first end-of-line token from `start` on.
fn skip_line(tokens: &[Token], start: usize) -> (end: usize)
    requires
        start <= tokens.len(),
    ensures
        end == line_end(tokens.deep_view(), start as int),
        start <= end <= tokens.len(),
{
    let ghost tv = tokens.deep_view();
    let mut end: usize = start;
    while end < tokens.len()
        invariant
            start <= end <= tokens.len(),
            tv == tokens.deep_view(),
            line_end(tv, start as int) == line_end(tv, end as int),
        decreases tokens.len() - end,
    {
        match &tokens[end].kind {
            TokenKind::Eol => {
                return end;
            },
            _ => {},
        }
        end += 1;
    }
    end
}

/// `mineral`, `vegetal` or `animal`.
fn species_kind_of(word: &str) -> (r: Option<SpeciesKind>)
    ensures
        r == species_keyword(word@),
{
    if word.eq("mineral") {
        Some(SpeciesKind::Mineral)
    } else if word.eq("vegetal") {
        Some(SpeciesKind::Vegetal)
    } else if word.eq("animal") {
        Some(SpeciesKind::Animal)
    } else {
        None
    }
}

/// Parses a token sequence into a configuration.
///
/// On success the configuration is the one that the statements describe, in
/// their order; on failure the error names the first statement at fault and
/// nothing else is returned.
pub fn parse_tokens(tokens: &[Token]) -> (r: Result<ConfigAst, ParseError>)
    ensures
        agrees(r, parse_spec(tokens.deep_view())),
{
    let ghost tv = tokens.deep_view();
    let mut config = ConfigAst { world: None, species: Vec::new(), agents: Vec::new() };
    let mut current: Option<Species> = None;
    assert(state_of(config, current) == initial_state()) by {
        assert(config.species.deep_view() =~= Seq::<SpeciesView>::empty());
        assert(config.agents.deep_view() =~= Seq::<AgentDefView>::empty());
    }
    let mut i: usize = 0;
    while i < tokens.len()
        invariant
            i <= tokens.len(),
            tv == tokens.deep_view(),
            parse_from(tv, i as int, state_of(config, current)) == parse_spec(tv),
        decreases tokens.len() - i,
    {
        let line = tokens[i].line;
        let ghost state = state_of(config, current);
        proof {
            lemma_statement_advances(tv, i as int, state);
        }
        match &tokens[i].kind {
            TokenKind::Ident(word) => {
                let word = word.as_str();
                let species_kind = species_kind_of(word);
                if word.eq("world") {
                    let cols = number_of(tokens, i, 1);
                    let rows = number_of(tokens, i, 2);
                    match (cols, rows) {
                        (Some(c), Some(r)) => {
                            if tokens.len() - i <= 3 {
                                return Err(ParseError::InvalidWorldSyntax { line });
                            }
                            match color_of(tokens, i, 3) {
                                Some(color) => {
                                    config.world = Some(
                                        World {
                                            cols: wrap_dimension(c),
                                            rows: wrap_dimension(r),
                                            color,
                                        },
                                    );
                                    i += 4;
                                },
                                None => {
                                    return Err(ParseError::ExpectedWorldColor { line });
                                },
                            }
                        },
                        _ => {
                            return Err(ParseError::InvalidWorldSyntax { line });
                        },
                    }
                } else if species_kind.is_some() {
                    let kind = species_kind.unwrap();
                    let name = match ident_of(tokens, i, 1) {
                        Some(name) => name,
                        None => {
                            return Err(ParseError::ExpectedSpeciesName { line });
                        },
                    };
                    let color = match color_of(tokens, i, 2) {
                        Some(color) => color,
                        None => {
                            return Err(ParseError::ExpectedSpeciesColor { line });
                        },
                    };
                    match current.take() {
                        Some(sp) => {
                            push_deep(&mut config.species, sp);
                        },
                        None => {},
                    }
                    let species = Species {
                        kind,
                        name,
                        color,
                        vars: Vec::new(),
                        statuses: Vec::new(),
                        births: Vec::new(),
                        fields: Vec::new(),
                        sensors: Vec::new(),
                    };
                    assert(species.deep_view() == new_species(kind, name@, color@)) by {
                        assert(species.vars.deep_view() =~= seq![]);
                        assert(species.statuses.deep_view() =~= seq![]);
                        assert(species.births.deep_view() =~= seq![]);
                        assert(species.fields.deep_view() =~= seq![]);
                        assert(species.sensors.deep_view() =~= seq![]);
                    }
                    current = Some(species);
                    i += 3;
                } else if word.eq("var") {
                    match current.take() {
                        None => {
                            return Err(
                                ParseError::OutsideSpecies { directive: Directive::Var, line },
                            );
                        },
                        Some(mut sp) => {
                            let name = match ident_of(tokens, i, 1) {
                                Some(name) => name,
                                None => {
                                    return Err(ParseError::ExpectedVariableName { line });
                                },
                            };
                            let var = VarDef { name, init_value: Value::Int(0), timestep: 0 };
                            push_deep(&mut sp.vars, var);
                            current = Some(sp);
                            i += 2;
                        },
                    }
                } else if word.eq("status") {
                    match current.take() {
                        None => {
                            return Err(
                                ParseError::OutsideSpecies { directive: Directive::Status, line },
                            );
                        },
                        Some(mut sp) => {
                            let new_status = match ident_of(tokens, i, 1) {
                                Some(name) => name,
                                None => {
                                    return Err(ParseError::ExpectedStatusName { line });
                                },
                            };
                            let rule = StatusRule {
                                variable: None,
                                less_than: None,
                                threshold: None,
                                new_status,
                            };
                            push_deep(&mut sp.statuses, rule);
                            current = Some(sp);
                            i += 2;
                        },
                    }
                } else if word.eq("sensor") {
                    if current.is_none() {
                        return Err(
                            ParseError::OutsideSpecies { directive: Directive::Sensor, line },
                        );
                    }
                    i = skip_line(tokens, i + 1);
                } else if word.eq("field") {
                    if current.is_none() {
                        return Err(
                            ParseError::OutsideSpecies { directive: Directive::Field, line },
                        );
                    }
                    i = skip_line(tokens, i + 1);
                } else if word.eq("block") {
                    if current.is_none() {
                        return Err(
                            ParseError::OutsideSpecies { directive: Directive::Block, line },
                        );
                    }
                    i = skip_line(tokens, i + 1);
                } else if word.eq("agent") {
                    if tokens.len() - i <= 1 {
                        i += 1;
                    } else {
                        let (species_pattern, after) = match ident_of(tokens, i, 1) {
                            Some(s) => (s, i + 2),
                            None => scan_pattern(tokens, i + 1),
                        };
                        let (positions, next) = scan_positions(tokens, after);
                        push_deep(&mut config.agents, AgentDef { species_pattern, positions });
                        i = next;
                    }
                } else {
                    i += 1;
                }
            },
            _ => {
                i += 1;
            },
        }
    }
    match current.take() {
        Some(sp) => {
            push_deep(&mut config.species, sp);
        },
        None => {},
    }
    Ok(config)
}

/// Tokenizes and parses a configuration text.
pub fn parse_file(input: &str) -> (r: Result<ConfigAst, ParseError>)
    ensures
        agrees(r, parse_spec(tokenize_spec(input@))),
{
    match tokenize(input) {
        Ok(tokens) => parse_tokens(tokens.as_slice()),
        Err(e) => Err(e),
    }
}


/// A `world` statement on a line of its own gives its operands: the world has
/// the columns and rows that the two integers write, and the colour of the
/// third operand; an identifier is the colour as written. Nothing else is
/// declared.
pub proof fn lemma_world_statement(tokens: Seq<TokenView>, cols: i32, rows: i32)
    requires
        tokens.len() == 5,
        tokens[0].kind == TokenKindView::Ident("world"@),
        tokens[1].kind == TokenKindView::Number(cols),
        tokens[2].kind == TokenKindView::Number(rows),
        color_text(tokens[3].kind) is Some,
        tokens[4].kind == TokenKindView::Eol,
    ensures
        parse_spec(tokens) == Ok::<ConfigView, ParseError>(
            ConfigView {
                world: Some(
                    WorldView {
                        cols: dimension(cols),
                        rows: dimension(rows),
                        color: color_text(tokens[3].kind)->Some_0,
                    },
                ),
                species: seq![],
                agents: seq![],
            },
        ),
        cols >= 0 ==> dimension(cols) == cols,
        rows >= 0 ==> dimension(rows) == rows,
        forall|c: Seq<char>| tokens[3].kind == TokenKindView::Ident(c) ==> color_text(tokens[3].kind) == Some(c),
{
    reveal_with_fuel(parse_from, 4);
    let after = ParseState {
        world: Some(
            WorldView {
                cols: dimension(cols),
                rows: dimension(rows),
                color: color_text(tokens[3].kind)->Some_0,
            },
        ),
        ..initial_state()
    };
    assert(statement(tokens, 0, initial_state()) == Step::Next { at: 4, state: after });
    assert(statement(tokens, 4, after) == Step::Next { at: 5, state: after });
}

/// The text of a `world` statement: the keyword, the columns, the rows and
/// the colour, with one blank between them.
pub open spec fn world_text(cols: nat, rows: nat, color: Seq<char>) -> Seq<char> {
    "world"@ + seq![' '] + decimal_text(cols) + seq![' '] + decimal_text(rows) + seq![' '] + color
}

/// A word: not empty, without white space and without `#`.
pub open spec fn is_word(w: Seq<char>) -> bool {
    &&& w.len() > 0
    &&& forall|k: int| 0 <= k < w.len() ==> !is_space(#[trigger] w[k]) && w[k] != '#'
}

/// Where the columns, the rows and the colour start and end in the text of
/// a `world` statement; the keyword takes the first five places.
pub open spec fn world_marks(cols: nat, rows: nat, color: Seq<char>) -> (int, int, int, int, int, int) {
    let cols_start = 6int;
    let cols_end = cols_start + decimal_text(cols).len();
    let rows_start = cols_end + 1;
    let rows_end = rows_start + decimal_text(rows).len();
    let color_start = rows_end + 1;
    (cols_start, cols_end, rows_start, rows_end, color_start, color_start + color.len())
}

/// The text of a `world` statement holds its four words at their marks, a
/// blank between them, and neither line feed nor `#`.
proof fn lemma_world_text_chars(cols: nat, rows: nat, color: Seq<char>)
    requires
        is_word(color),
    ensures
        ({
            let s = world_text(cols, rows, color);
            let m = world_marks(cols, rows, color);
            &&& s.len() == m.5
            &&& 6 < m.1 && m.2 < m.3 && m.4 < m.5
            &&& s.subrange(0, 5) == "world"@
            &&& s.subrange(m.0, m.1) == decimal_text(cols)
            &&& s.subrange(m.2, m.3) == decimal_text(rows)
            &&& s.subrange(m.4, m.5) == color
            &&& forall|k: int|
                0 <= k < s.len() ==> s[k] != '\n' && s[k] != '#' && (is_space(#[trigger] s[k])
                    <==> (k == 5 || k == m.1 || k == m.3))
        }),
{
    reveal_strlit("world");
    let keyword = "world"@;
    let first = decimal_text(cols);
    let second = decimal_text(rows);
    let s = world_text(cols, rows, color);
    let m = world_marks(cols, rows, color);
    lemma_decimal_text(cols);
    lemma_decimal_text(rows);
    assert(s.len() == m.5);
    assert(s.subrange(0, 5) =~= keyword);
    assert(s.subrange(m.0, m.1) =~= first);
    assert(s.subrange(m.2, m.3) =~= second);
    assert(s.subrange(m.4, m.5) =~= color);
    assert forall|k: int| 0 <= k < s.len() implies s[k] != '\n' && s[k] != '#' && (is_space(
        #[trigger] s[k],
    ) <==> (k == 5 || k == m.1 || k == m.3)) by {
        if k < 5 {
            assert(s[k] == keyword[k]);
        } else if m.0 <= k < m.1 {
            assert(s[k] == first[k - m.0]);
            assert(crate::utils::text::is_digit(first[k - m.0]));
        } else if m.2 <= k < m.3 {
            assert(s[k] == second[k - m.2]);
            assert(crate::utils::text::is_digit(second[k - m.2]));
        } else if m.4 <= k {
            assert(s[k] == color[k - m.4]);
        } else {
            assert(s[k] == ' ');
        }
    }
}

/// The words of the text of a `world` statement are the keyword, the
/// columns, the rows and the colour.
proof fn lemma_world_words(cols: nat, rows: nat, color: Seq<char>)
    requires
        is_word(color),
    ensures
        words_in(
            world_text(cols, rows, color),
            0,
            world_text(cols, rows, color).len() as int,
        ) == seq!["world"@, decimal_text(cols), decimal_text(rows), color],
{
    let s = world_text(cols, rows, color);
    let m = world_marks(cols, rows, color);
    lemma_world_text_chars(cols, rows, color);
    lemma_first_word(s, 0, 5, m.5);
    lemma_first_word(s, m.0, m.1, m.5);
    lemma_first_word(s, m.2, m.3, m.5);
    lemma_first_word(s, m.4, m.5, m.5);
    assert(words_in(s, m.4, m.5) =~= seq![color]);
    assert(words_in(s, m.2, m.5) =~= seq![decimal_text(rows), color]);
    assert(words_in(s, m.0, m.5) =~= seq![decimal_text(cols), decimal_text(rows), color]);
    assert(words_in(s, 0, m.5) =~= seq![
        "world"@,
        decimal_text(cols),
        decimal_text(rows),
        color,
    ]);
}

/// The keyword `world` is an identifier.
proof fn lemma_world_keyword()
    ensures
        classify("world"@) == TokenKindView::Ident("world"@),
{
    reveal_strlit("world");
    let keyword = "world"@;
    assert(keyword.len() == 5 && keyword[0] == 'w');
    lemma_no_point_no_float(keyword);
    assert(!crate::utils::text::is_digit(keyword[0]));
}

/// The text of a `world` statement is five tokens: the keyword, two
/// integers, the colour's token and the end of the line.
proof fn lemma_world_tokens(cols: nat, rows: nat, color: Seq<char>)
    requires
        cols <= i32::MAX,
        rows <= i32::MAX,
        is_word(color),
    ensures
        ({
            let tokens = tokenize_spec(world_text(cols, rows, color));
            &&& tokens.len() == 5
            &&& tokens[0].kind == TokenKindView::Ident("world"@)
            &&& tokens[1].kind == TokenKindView::Number(cols as i32)
            &&& tokens[2].kind == TokenKindView::Number(rows as i32)
            &&& tokens[3].kind == classify(color)
            &&& tokens[4].kind == TokenKindView::Eol
        }),
{
    let s = world_text(cols, rows, color);
    let end = s.len() as int;
    lemma_world_text_chars(cols, rows, color);
    lemma_one_line(s);
    lemma_find_in_none(s, '#', 0, end);
    assert(code_end(s, 0, end) == end);
    lemma_world_words(cols, rows, color);
    let words = words_in(s, 0, end);
    assert(words.len() == 4);
    assert(words[0] == "world"@ && words[1] == decimal_text(cols) && words[2] == decimal_text(
        rows,
    ) && words[3] == color);
    lemma_world_keyword();
    lemma_classify_number(cols);
    lemma_classify_number(rows);
    let tokens = line_tokens(s, 0, end, 1);
    assert(tokens.len() == 5);
    assert(tokens[0].kind == classify(words[0]));
    assert(tokens[1].kind == classify(words[1]));
    assert(tokens[2].kind == classify(words[2]));
    assert(tokens[3].kind == classify(words[3]));
}

/// `world <c> <r> <color>` parses to the world with `c` columns, `r` rows
/// and the colour `color`, and to nothing else, whenever `c` and `r` fit in
/// 32 bits and `color` is a word that is an identifier. A colour that is an
/// integer comes out in capital hexadecimal instead.
pub proof fn lemma_world_line(cols: nat, rows: nat, color: Seq<char>)
    requires
        cols <= i32::MAX,
        rows <= i32::MAX,
        is_word(color),
        color_text(classify(color)) is Some,
    ensures
        parse_spec(tokenize_spec(world_text(cols, rows, color))) == Ok::<ConfigView, ParseError>(
            ConfigView {
                world: Some(
                    WorldView { cols, rows, color: color_text(classify(color))->Some_0 },
                ),
                species: seq![],
                agents: seq![],
            },
        ),
        classify(color) is Ident ==> color_text(classify(color)) == Some(color),
{
    lemma_world_tokens(cols, rows, color);
    lemma_world_statement(tokenize_spec(world_text(cols, rows, color)), cols as i32, rows as i32);
}

/// A line that adds to the open species: `var <name>` or `status <name>`.
pub enum Addition {
    Var(Seq<char>),
    Status(Seq<char>),
}

/// The three tokens from `i` on are the line `addition`.
pub open spec fn is_addition(tokens: Seq<TokenView>, i: int, addition: Addition) -> bool {
    &&& 0 <= i && i + 2 < tokens.len()
    &&& tokens[i].kind == match addition {
        Addition::Var(_) => TokenKindView::Ident("var"@),
        Addition::Status(_) => TokenKindView::Ident("status"@),
    }
    &&& tokens[i + 1].kind == match addition {
        Addition::Var(name) => TokenKindView::Ident(name),
        Addition::Status(name) => TokenKindView::Ident(name),
    }
    &&& tokens[i + 2].kind == TokenKindView::Eol
}

/// The species with what the lines `additions` add to it, in their order:
/// a variable for each `var`, an unguarded rule for each `status`.
pub open spec fn with_additions(species: SpeciesView, additions: Seq<Addition>) -> SpeciesView
    decreases additions.len(),
{
    if additions.len() == 0 {
        species
    } else {
        let grown = match additions[0] {
            Addition::Var(name) => SpeciesView {
                vars: species.vars.push(plain_var(name)),
                ..species
            },
            Addition::Status(name) => SpeciesView {
                statuses: species.statuses.push(plain_rule(name)),
                ..species
            },
        };
        with_additions(grown, additions.drop_first())
    }
}

/// What follows a species header belongs to that species: a run of `var` and
/// `status` lines adds exactly those variables and rules to the open
/// species, in their order, and changes nothing else; the parse goes on
/// behind the run.
pub proof fn lemma_additions_go_to_the_open_species(
    tokens: Seq<TokenView>,
    i: int,
    additions: Seq<Addition>,
    state: ParseState,
)
    requires
        state.current is Some,
        forall|j: int|
            0 <= j < additions.len() ==> is_addition(tokens, i + 3 * j, #[trigger] additions[j]),
    ensures
        parse_from(tokens, i, state) == parse_from(
            tokens,
            i + 3 * additions.len(),
            ParseState {
                current: Some(with_additions(state.current->Some_0, additions)),
                ..state
            },
        ),
    decreases additions.len(),
{
    reveal_strlit("world");
    reveal_strlit("mineral");
    reveal_strlit("vegetal");
    reveal_strlit("animal");
    reveal_strlit("var");
    reveal_strlit("status");
    if additions.len() > 0 {
        assert(is_addition(tokens, i + 3 * 0, additions[0]));
        let species = state.current->Some_0;
        let grown = match additions[0] {
            Addition::Var(name) => SpeciesView {
                vars: species.vars.push(plain_var(name)),
                ..species
            },
            Addition::Status(name) => SpeciesView {
                statuses: species.statuses.push(plain_rule(name)),
                ..species
            },
        };
        let next = ParseState { current: Some(grown), ..state };
        assert("var"@.len() == 3 && "status"@.len() == 6 && "world"@.len() == 5);
        assert("mineral"@.len() == 7 && "vegetal"@.len() == 7 && "animal"@.len() == 6);
        assert("status"@[0] == 's' && "animal"@[0] == 'a');
        assert(species_keyword("var"@) is None && species_keyword("status"@) is None);
        assert(statement(tokens, i, state) == Step::Next { at: i + 2, state: next });
        assert(statement(tokens, i + 2, next) == Step::Next { at: i + 3, state: next });
        reveal_with_fuel(parse_from, 3);
        assert(parse_from(tokens, i, state) == parse_from(tokens, i + 3, next));
        let rest = additions.drop_first();
        assert forall|j: int| 0 <= j < rest.len() implies is_addition(
            tokens,
            (i + 3) + 3 * j,
            #[trigger] rest[j],
        ) by {
            assert(rest[j] == additions[j + 1]);
            assert(is_addition(tokens, i + 3 * (j + 1), additions[j + 1]));
        }
        lemma_additions_go_to_the_open_species(tokens, i + 3, rest, next);
    }
}

/// A species header closes the open species, which joins the list as it
/// stands, and opens a new one that holds nothing yet.
pub proof fn lemma_header_closes_the_open_species(
    tokens: Seq<TokenView>,
    i: int,
    state: ParseState,
    word: Seq<char>,
    name: Seq<char>,
)
    requires
        0 <= i && i + 2 < tokens.len(),
        species_keyword(word) is Some,
        tokens[i].kind == TokenKindView::Ident(word),
        tokens[i + 1].kind == TokenKindView::Ident(name),
        color_text(tokens[i + 2].kind) is Some,
    ensures
        statement(tokens, i, state) == (Step::Next {
            at: i + 3,
            state: ParseState {
                species: match state.current {
                    Some(open) => state.species.push(open),
                    None => state.species,
                },
                current: Some(
                    new_species(
                        species_keyword(word)->Some_0,
                        name,
                        color_text(tokens[i + 2].kind)->Some_0,
                    ),
                ),
                ..state
            },
        }),
{
    reveal_strlit("world");
    reveal_strlit("mineral");
    reveal_strlit("vegetal");
    reveal_strlit("animal");
    assert("world"@.len() == 5);
    assert(word != "world"@) by {
        if word == "mineral"@ {
            assert(word[0] == 'm');
        } else if word == "vegetal"@ {
            assert(word[0] == 'v');
        } else {
            assert(word[0] == 'a');
        }
    }
}

/// The end of the input closes the open species: it is the last of the
/// species of the configuration.
pub proof fn lemma_end_closes_the_open_species(tokens: Seq<TokenView>, state: ParseState)
    requires
        state.current is Some,
    ensures
        parse_from(tokens, tokens.len() as int, state) == Ok::<ConfigView, ParseError>(
            ConfigView {
                world: state.world,
                species: state.species.push(state.current->Some_0),
                agents: state.agents,
            },
        ),
{
}

} // verus!
