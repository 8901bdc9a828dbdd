//! Syntax analysis: a sequence of located tokens becomes an abstract syntax tree.
//!
//! The grammar is stated as spec functions on the token sequence; the parser is proved to
//! return what they give. Each production starts at a token and says how many tokens it takes
//! after that first one, so that the next production starts one past them.

use vstd::prelude::*;

use crate::ast::lemma_parameters_view;
use crate::ast::AST;
use crate::ast::Branch;
use crate::ast::Expression;
use crate::ast::ExpressionView;
use crate::ast::FunctionCall;
use crate::ast::FunctionDefinition;
use crate::ast::FunctionDefinitionView;
use crate::ast::FunctionPrototype;
use crate::ast::FunctionPrototypeView;
use crate::ast::Literal;
use crate::ast::Number;
use crate::ast::ProgramView;
use crate::ast::Statement;
use crate::ast::Variable;
use crate::ast::VariableDefinition;
use crate::ast::VariableDefinitionView;
use crate::lexing::LocatedToken;
use crate::lexing::LocatedTokenView;
use crate::lexing::Location;
use crate::lexing::LocationView;
use crate::lexing::Symbol;
use crate::lexing::Token;
use crate::lexing::TokenView;
use crate::text::lemma_views_push;
use crate::text::number_of;
use crate::text::parse_number;
use crate::text::push_text;
use crate::text::same_text;
use crate::text::views;

verus! {

/// What the parser looked for and did not find.
#[derive(Debug, Clone, Copy, PartialEq, Eq, Structural)]
pub enum SyntaxIssue {
    ExpectedWord,
    ExpectedOpeningParenthesis,
    ExpectedClosingParenthesisOrWord,
    ExpectedOpeningBrace,
    ExpectedClosingBrace,
    /// The tokens ended in the middle of a definition.
    UnexpectedEnd,
}

impl SyntaxIssue {
    /// The message that names what was expected.
    pub open spec fn message(self) -> Seq<char> {
        match self {
            SyntaxIssue::ExpectedWord => "expected a word"@,
            SyntaxIssue::ExpectedOpeningParenthesis => "expected an opening parenthesis"@,
            SyntaxIssue::ExpectedClosingParenthesisOrWord =>
                "expected a closing parenthesis or a word"@,
            SyntaxIssue::ExpectedOpeningBrace => "expected an opening brace"@,
            SyntaxIssue::ExpectedClosingBrace => "expected a closing brace"@,
            SyntaxIssue::UnexpectedEnd => "unexpected end of input"@,
        }
    }

    /// The message that names what was expected.
    pub fn to_string(&self) -> (text: String)
        ensures
            text@ == self.message(),
    {
        match self {
            SyntaxIssue::ExpectedWord => "expected a word".to_owned(),
            SyntaxIssue::ExpectedOpeningParenthesis => "expected an opening parenthesis".to_owned(),
            SyntaxIssue::ExpectedClosingParenthesisOrWord =>
                "expected a closing parenthesis or a word".to_owned(),
            SyntaxIssue::ExpectedOpeningBrace => "expected an opening brace".to_owned(),
            SyntaxIssue::ExpectedClosingBrace => "expected a closing brace".to_owned(),
            SyntaxIssue::UnexpectedEnd => "unexpected end of input".to_owned(),
        }
    }
}

/// The mathematical value of a [`SyntaxError`].
pub struct SyntaxErrorView {
    pub location: LocationView,
    pub issue: SyntaxIssue,
}

impl SyntaxErrorView {
    /// The error as diagnostics show it: the location, a space, the message.
    pub open spec fn text(self) -> Seq<char> {
        self.location.text() + " "@ + self.issue.message()
    }
}

/// What a production gives: its value and the number of tokens it takes after its first one,
/// or the error that stopped it.
pub type Parsed<T> = Result<(T, nat), SyntaxErrorView>;

/// The error for tokens that end too early. It points at the last token.
pub open spec fn at_end(tokens: Seq<LocatedTokenView>) -> SyntaxErrorView {
    SyntaxErrorView { location: tokens.last().location, issue: SyntaxIssue::UnexpectedEnd }
}

/// The token at `position`.
pub open spec fn token_at(tokens: Seq<LocatedTokenView>, position: nat) -> LocatedTokenView {
    tokens[position as int]
}

/// The error for a token that is not the expected one. It points at that token.
pub open spec fn unexpected(
    tokens: Seq<LocatedTokenView>,
    position: nat,
    issue: SyntaxIssue,
) -> SyntaxErrorView {
    SyntaxErrorView { location: token_at(tokens, position).location, issue }
}

/// Whether the token at `position` is the given punctuation.
pub open spec fn symbol_at(tokens: Seq<LocatedTokenView>, position: nat, symbol: Symbol) -> bool {
    position < tokens.len() && token_at(tokens, position).token == TokenView::Symbol(symbol)
}

/// 1 if a comma stands at `position`, else 0: the separator of a list may be left out.
pub open spec fn comma_at(tokens: Seq<LocatedTokenView>, position: nat) -> nat {
    if symbol_at(tokens, position, Symbol::Comma) {
        1
    } else {
        0
    }
}

/// An expression that starts at `position`.
///
/// `if` condition `{` expression `}`, with an optional `else {` expression `}`, is a branch;
/// a word before `(` is a call; any other word is a literal where it reads as a number, else
/// a variable. A literal or a variable is located at the token that follows it.
pub open spec fn grammar_expression(tokens: Seq<LocatedTokenView>, position: nat) -> Parsed<
    ExpressionView,
>
    decreases tokens.len() - position, 1nat,
{
    if position >= tokens.len() {
        Err(at_end(tokens))
    } else {
        match token_at(tokens, position).token {
            TokenView::Symbol(_) => Err(unexpected(tokens, position, SyntaxIssue::ExpectedWord)),
            TokenView::Word(word) => {
                if word == "if"@ {
                    grammar_branch(tokens, position)
                } else if position + 1 >= tokens.len() {
                    Err(at_end(tokens))
                } else if symbol_at(tokens, position + 1, Symbol::OpeningParenthesis) {
                    match grammar_parameters(tokens, position + 2) {
                        Err(error) => Err(error),
                        Ok((parameters, rest)) => Ok(
                            (
                                ExpressionView::FunctionCall {
                                    name: word,
                                    parameters,
                                    location: token_at(tokens, position).location,
                                },
                                2 + rest,
                            ),
                        ),
                    }
                } else {
                    let location = token_at(tokens, position + 1).location;
                    match number_of(word) {
                        Some(value) => Ok((ExpressionView::Literal { value, location }, 0)),
                        None => Ok((ExpressionView::Variable { name: word, location }, 0)),
                    }
                }
            },
        }
    }
}

/// A branch whose `if` stands at `position`. It is located at its `if`.
pub open spec fn grammar_branch(tokens: Seq<LocatedTokenView>, position: nat) -> Parsed<
    ExpressionView,
>
    recommends
        position < tokens.len(),
    decreases tokens.len() - position, 0nat,
    when position < tokens.len()
{
    let location = token_at(tokens, position).location;
    match grammar_expression(tokens, position + 1) {
        Err(error) => Err(error),
        Ok((condition, condition_rest)) => {
            let opening = position + 2 + condition_rest;
            if opening >= tokens.len() {
                Err(at_end(tokens))
            } else if !symbol_at(tokens, opening, Symbol::OpeningBrace) {
                Err(unexpected(tokens, opening, SyntaxIssue::ExpectedOpeningBrace))
            } else {
                match grammar_expression(tokens, opening + 1) {
                    Err(error) => Err(error),
                    Ok((then_branch, then_rest)) => {
                        let closing = opening + 2 + then_rest;
                        if closing >= tokens.len() {
                            Err(at_end(tokens))
                        } else if !symbol_at(tokens, closing, Symbol::ClosingBrace) {
                            Err(unexpected(tokens, closing, SyntaxIssue::ExpectedClosingBrace))
                        } else if closing + 1 >= tokens.len() {
                            Err(at_end(tokens))
                        } else if token_at(tokens, closing + 1).token != TokenView::Word("else"@) {
                            Ok(
                                (
                                    ExpressionView::Branch {
                                        condition: Box::new(condition),
                                        then_branch: Box::new(then_branch),
                                        else_branch: Box::new(ExpressionView::Empty),
                                        location,
                                    },
                                    (closing - position) as nat,
                                ),
                            )
                        } else {
                            grammar_else(
                                tokens,
                                position,
                                condition,
                                then_branch,
                                (closing + 1) as nat,
                            )
                        }
                    },
                }
            }
        },
    }
}

/// The rest of a branch whose `else` stands at `position`; the branch began at `start`.
pub open spec fn grammar_else(
    tokens: Seq<LocatedTokenView>,
    start: nat,
    condition: ExpressionView,
    then_branch: ExpressionView,
    position: nat,
) -> Parsed<ExpressionView>
    recommends
        start < position < tokens.len(),
    decreases tokens.len() - position, 0nat,
    when start < position < tokens.len()
{
    if position + 1 >= tokens.len() {
        Err(at_end(tokens))
    } else if !symbol_at(tokens, position + 1, Symbol::OpeningBrace) {
        Err(unexpected(tokens, position + 1, SyntaxIssue::ExpectedOpeningBrace))
    } else {
        match grammar_expression(tokens, position + 2) {
            Err(error) => Err(error),
            Ok((else_branch, else_rest)) => {
                let closing = position + 3 + else_rest;
                if closing >= tokens.len() {
                    Err(at_end(tokens))
                } else if !symbol_at(tokens, closing, Symbol::ClosingBrace) {
                    Err(unexpected(tokens, closing, SyntaxIssue::ExpectedClosingBrace))
                } else {
                    Ok(
                        (
                            ExpressionView::Branch {
                                condition: Box::new(condition),
                                then_branch: Box::new(then_branch),
                                else_branch: Box::new(else_branch),
                                location: token_at(tokens, start).location,
                            },
                            (closing - start) as nat,
                        ),
                    )
                }
            },
        }
    }
}

/// The parameters of a call, from `position` to the closing parenthesis: expressions, each
/// followed by an optional comma.
pub open spec fn grammar_parameters(tokens: Seq<LocatedTokenView>, position: nat) -> Parsed<
    Seq<ExpressionView>,
>
    decreases tokens.len() - position, 2nat,
{
    if position >= tokens.len() {
        Err(at_end(tokens))
    } else if symbol_at(tokens, position, Symbol::ClosingParenthesis) {
        Ok((Seq::empty(), 0))
    } else {
        match grammar_expression(tokens, position) {
            Err(error) => Err(error),
            Ok((parameter, rest)) => {
                let after = position + 1 + rest;
                if after >= tokens.len() {
                    Err(at_end(tokens))
                } else {
                    let next = after + comma_at(tokens, after);
                    match grammar_parameters(tokens, next) {
                        Err(error) => Err(error),
                        Ok((others, others_rest)) => Ok(
                            (
                                seq![parameter] + others,
                                (next - position + others_rest) as nat,
                            ),
                        ),
                    }
                }
            },
        }
    }
}

/// The parameter declarations of a prototype, from `position` to the closing parenthesis:
/// words, each followed by an optional comma. A declaration is located at the token that
/// follows its name.
pub open spec fn grammar_arguments(tokens: Seq<LocatedTokenView>, position: nat) -> Parsed<
    Seq<VariableDefinitionView>,
>
    decreases tokens.len() - position,
{
    if position >= tokens.len() {
        Err(at_end(tokens))
    } else {
        match token_at(tokens, position).token {
            TokenView::Symbol(symbol) => {
                if symbol == Symbol::ClosingParenthesis {
                    Ok((Seq::empty(), 0))
                } else {
                    Err(
                        unexpected(
                            tokens,
                            position,
                            SyntaxIssue::ExpectedClosingParenthesisOrWord,
                        ),
                    )
                }
            },
            TokenView::Word(name) => {
                if position + 1 >= tokens.len() {
                    Err(at_end(tokens))
                } else {
                    let argument = VariableDefinitionView {
                        name,
                        location: token_at(tokens, position + 1).location,
                    };
                    let next = position + 1 + comma_at(tokens, position + 1);
                    match grammar_arguments(tokens, next) {
                        Err(error) => Err(error),
                        Ok((others, others_rest)) => Ok(
                            (seq![argument] + others, (next - position + others_rest) as nat),
                        ),
                    }
                }
            },
        }
    }
}

/// A prototype that starts at `position`: a name, `(`, the parameter declarations, `)`. It is
/// located at the token that follows the closing parenthesis.
pub open spec fn grammar_prototype(tokens: Seq<LocatedTokenView>, position: nat) -> Parsed<
    FunctionPrototypeView,
> {
    if position >= tokens.len() {
        Err(at_end(tokens))
    } else {
        match token_at(tokens, position).token {
            TokenView::Symbol(_) => Err(unexpected(tokens, position, SyntaxIssue::ExpectedWord)),
            TokenView::Word(name) => {
                if position + 1 >= tokens.len() {
                    Err(at_end(tokens))
                } else if !symbol_at(tokens, position + 1, Symbol::OpeningParenthesis) {
                    Err(unexpected(tokens, position + 1, SyntaxIssue::ExpectedOpeningParenthesis))
                } else {
                    match grammar_arguments(tokens, position + 2) {
                        Err(error) => Err(error),
                        Ok((arguments, rest)) => {
                            let after = position + 3 + rest;
                            if after >= tokens.len() {
                                Err(at_end(tokens))
                            } else {
                                Ok(
                                    (
                                        FunctionPrototypeView {
                                            name,
                                            arguments,
                                            location: token_at(tokens, after).location,
                                        },
                                        2 + rest,
                                    ),
                                )
                            }
                        },
                    }
                }
            },
        }
    }
}

/// A body that starts at `position`: `{`, an expression or nothing, `}`.
pub open spec fn grammar_body(tokens: Seq<LocatedTokenView>, position: nat) -> Parsed<
    ExpressionView,
> {
    if position >= tokens.len() {
        Err(at_end(tokens))
    } else if !symbol_at(tokens, position, Symbol::OpeningBrace) {
        Err(unexpected(tokens, position, SyntaxIssue::ExpectedOpeningBrace))
    } else if position + 1 >= tokens.len() {
        Err(at_end(tokens))
    } else if symbol_at(tokens, position + 1, Symbol::ClosingBrace) {
        Ok((ExpressionView::Empty, 1))
    } else {
        match grammar_expression(tokens, position + 1) {
            Err(error) => Err(error),
            Ok((body, rest)) => {
                let closing = position + 2 + rest;
                if closing >= tokens.len() {
                    Err(at_end(tokens))
                } else if !symbol_at(tokens, closing, Symbol::ClosingBrace) {
                    Err(unexpected(tokens, closing, SyntaxIssue::ExpectedClosingBrace))
                } else {
                    Ok((body, 2 + rest))
                }
            },
        }
    }
}

/// A function definition that starts at `position`: a prototype, then a body. It is located
/// at its first token.
pub open spec fn grammar_definition(tokens: Seq<LocatedTokenView>, position: nat) -> Parsed<
    FunctionDefinitionView,
> {
    match grammar_prototype(tokens, position) {
        Err(error) => Err(error),
        Ok((prototype, prototype_rest)) => {
            match grammar_body(tokens, position + 1 + prototype_rest) {
                Err(error) => Err(error),
                Ok((body, body_rest)) => Ok(
                    (
                        FunctionDefinitionView {
                            prototype,
                            body,
                            location: token_at(tokens, position).location,
                        },
                        prototype_rest + 1 + body_rest,
                    ),
                ),
            }
        },
    }
}

/// The definitions from `position` to the end of the tokens.
pub open spec fn grammar_statements(tokens: Seq<LocatedTokenView>, position: nat) -> Result<
    Seq<FunctionDefinitionView>,
    SyntaxErrorView,
>
    decreases tokens.len() - position,
{
    if position >= tokens.len() {
        Ok(Seq::empty())
    } else {
        match grammar_definition(tokens, position) {
            Err(error) => Err(error),
            Ok((definition, rest)) => {
                match grammar_statements(tokens, position + 1 + rest) {
                    Err(error) => Err(error),
                    Ok(others) => Ok(seq![definition] + others),
                }
            },
        }
    }
}

/// The program that a whole token sequence writes, or the first error in it.
pub open spec fn grammar_program(tokens: Seq<LocatedTokenView>) -> Result<
    ProgramView,
    SyntaxErrorView,
> {
    match grammar_statements(tokens, 0) {
        Err(error) => Err(error),
        Ok(statements) => Ok(ProgramView { statements }),
    }
}

/// The first structural violation in a token sequence: where it is and what was expected.
#[derive(Debug, PartialEq, Eq)]
pub struct SyntaxError {
    pub location: Location,
    pub issue: SyntaxIssue,
}

impl View for SyntaxError {
    type V = SyntaxErrorView;

    open spec fn view(&self) -> SyntaxErrorView {
        SyntaxErrorView { location: self.location@, issue: self.issue }
    }
}

impl SyntaxError {
    /// The error as diagnostics show it: `path:line:column message`.
    pub fn to_string(&self) -> (text: String)
        ensures
            text@ == self@.text(),
    {
        let mut text = self.location.to_string();
        push_text(&mut text, " ");
        push_text(&mut text, self.issue.to_string().as_str());
        text
    }
}

/// The mathematical value of a [`Parser`]: the tokens it reads and the index of the current
/// one.
pub struct ParserView {
    pub tokens: Seq<LocatedTokenView>,
    pub position: nat,
}

/// A recursive-descent parser over a token sequence, with one token of lookahead.
pub struct Parser<'a> {
    tokens: &'a [LocatedToken],
    position: usize,
}

impl<'a> View for Parser<'a> {
    type V = ParserView;

    closed spec fn view(&self) -> ParserView {
        ParserView { tokens: views(self.tokens@), position: self.position as nat }
    }
}

/// Whether a production of the parser gave what the grammar gives, and stopped where the
/// grammar stops. After an error the parser stands at the token it stopped at, which is
/// not before the one it began at.
pub open spec fn delivers<T: View>(
    result: Result<T, SyntaxError>,
    expected: Parsed<T::V>,
    before: ParserView,
    after: ParserView,
) -> bool {
    &&& after.tokens == before.tokens
    &&& before.position <= after.position <= after.tokens.len()
    &&& match expected {
        Ok((value, rest)) => {
            &&& result matches Ok(given)
            &&& given@ == value
            &&& after.position == before.position + 1 + rest
        },
        Err(error) => {
            &&& result matches Err(given)
            &&& given@ == error
        },
    }
}

/// Whether a list that was read up to some token, with `items` read over `offset` tokens, and
/// whose remainder reads as `tail`, reads as `whole` from its start.
pub open spec fn continues<T>(
    whole: Parsed<Seq<T>>,
    items: Seq<T>,
    offset: nat,
    tail: Parsed<Seq<T>>,
) -> bool {
    match tail {
        Ok((others, rest)) => whole == Ok::<(Seq<T>, nat), SyntaxErrorView>(
            (items + others, offset + rest),
        ),
        Err(error) => whole == Err::<(Seq<T>, nat), SyntaxErrorView>(error),
    }
}

impl<'a> Parser<'a> {
    /// Whether the current token is one of the tokens or one past the last.
    pub closed spec fn wf(&self) -> bool {
        self.position <= self.tokens@.len()
    }

    /// A parser at the first of `tokens`.
    pub fn new(tokens: &'a [LocatedToken]) -> (parser: Self)
        ensures
            parser.wf(),
            parser@ == (ParserView { tokens: views(tokens@), position: 0 }),
    {
        Self { tokens, position: 0 }
    }

    /// Parses definitions until the tokens are exhausted, and stops at the first error.
    pub fn parse(&mut self) -> (result: Result<AST, SyntaxError>)
        requires
            old(self).wf(),
        ensures
            final(self).wf(),
            final(self)@.tokens == old(self)@.tokens,
            old(self)@.position <= final(self)@.position,
            match grammar_statements(old(self)@.tokens, old(self)@.position) {
                Ok(statements) => {
                    &&& result matches Ok(ast)
                    &&& ast@ == ProgramView { statements }
                    &&& final(self)@.position == old(self)@.tokens.len()
                },
                Err(error) => {
                    &&& result matches Err(given)
                    &&& given@ == error
                },
            },
    {
        let ghost tokens = self@.tokens;
        let ghost start = self@.position;
        let mut statements: Vec<Statement> = Vec::new();
        assert(views(statements@) + Seq::<FunctionDefinitionView>::empty() =~= views(
            statements@,
        ));
        while self.position < self.tokens.len()
            invariant
                self.wf(),
                self@.tokens == tokens,
                tokens == old(self)@.tokens,
                start == old(self)@.position,
                start <= self@.position,
                match grammar_statements(tokens, self@.position) {
                    Ok(others) => grammar_statements(tokens, start) == Ok::<
                        Seq<FunctionDefinitionView>,
                        SyntaxErrorView,
                    >(views(statements@) + others),
                    Err(error) => grammar_statements(tokens, start) == Err::<
                        Seq<FunctionDefinitionView>,
                        SyntaxErrorView,
                    >(error),
                },
            decreases self.tokens@.len() - self.position,
        {
            let ghost read = views(statements@);
            match self.parse_statement() {
                Err(error) => {
                    return Err(error);
                },
                Ok(statement) => {
                    proof {
                        lemma_views_push(statements@, statement);
                        match grammar_statements(tokens, self@.position) {
                            Ok(others) => {
                                assert(read + (seq![statement@] + others) =~= read.push(
                                    statement@,
                                ) + others);
                            },
                            Err(_) => {},
                        }
                    }
                    statements.push(statement);
                },
            }
        }
        assert(views(statements@) + Seq::<FunctionDefinitionView>::empty() =~= views(
            statements@,
        ));
        Ok(AST { statements })
    }

    /// Parses one top-level statement: a function definition.
    fn parse_statement(&mut self) -> (result: Result<Statement, SyntaxError>)
        requires
            old(self).wf(),
            old(self)@.position < old(self)@.tokens.len(),
        ensures
            delivers(
                result,
                grammar_definition(old(self)@.tokens, old(self)@.position),
                old(self)@,
                final(self)@,
            ),
    {
        match self.parse_function_definition() {
            Ok(definition) => Ok(Statement::FunctionDefinition(definition)),
            Err(error) => Err(error),
        }
    }

    /// Parses a function definition: a prototype, then a body.
    fn parse_function_definition(&mut self) -> (result: Result<FunctionDefinition, SyntaxError>)
        requires
            old(self).wf(),
            old(self)@.position < old(self)@.tokens.len(),
        ensures
            delivers(
                result,
                grammar_definition(old(self)@.tokens, old(self)@.position),
                old(self)@,
                final(self)@,
            ),
    {
        let location = self.tokens[self.position].location.clone();
        let prototype = match self.parse_function_prototype() {
            Ok(prototype) => prototype,
            Err(error) => {
                return Err(error);
            },
        };
        let body = match self.parse_function_body() {
            Ok(body) => body,
            Err(error) => {
                return Err(error);
            },
        };
        Ok(FunctionDefinition { location, prototype, body })
    }

    /// Parses a prototype: a name, `(`, the parameter declarations, `)`.
    fn parse_function_prototype(&mut self) -> (result: Result<FunctionPrototype, SyntaxError>)
        requires
            old(self).wf(),
            old(self)@.position < old(self)@.tokens.len(),
        ensures
            delivers(
                result,
                grammar_prototype(old(self)@.tokens, old(self)@.position),
                old(self)@,
                final(self)@,
            ),
    {
        let ghost tokens = self@.tokens;
        let start = self.position;
        let first = &self.tokens[start];
        let name = match &first.token {
            Token::Word(name) => name,
            Token::Symbol(_) => {
                return Err(self.unexpected(SyntaxIssue::ExpectedWord));
            },
        };
        self.next_token();
        match self.expect(Symbol::OpeningParenthesis, SyntaxIssue::ExpectedOpeningParenthesis) {
            Ok(()) => {},
            Err(error) => {
                return Err(error);
            },
        }
        let mut arguments: Vec<VariableDefinition> = Vec::new();
        let ghost whole = grammar_arguments(tokens, (start + 2) as nat);
        proof {
            match whole {
                Ok((others, _)) => {
                    assert(views(arguments@) + others =~= others);
                },
                Err(_) => {},
            }
        }
        loop
            invariant_except_break
                continues(
                    whole,
                    views(arguments@),
                    (self.position - (start + 2)) as nat,
                    grammar_arguments(tokens, self@.position),
                ),
            invariant
                self.wf(),
                self@.tokens == tokens,
                tokens.len() > 0,
                start + 2 <= self.position,
                whole == grammar_arguments(tokens, (start + 2) as nat),
                tokens == old(self)@.tokens,
                start == old(self)@.position,
                token_at(tokens, start as nat).token == TokenView::Word(name@),
                symbol_at(tokens, (start + 1) as nat, Symbol::OpeningParenthesis),
            ensures
                self.wf(),
                self@.tokens == tokens,
                start + 3 <= self.position,
                whole == Ok::<(Seq<VariableDefinitionView>, nat), SyntaxErrorView>(
                    (views(arguments@), (self.position - (start + 3)) as nat),
                ),
            decreases self.tokens@.len() - self.position,
        {
            if self.position >= self.tokens.len() {
                return Err(self.at_end());
            }
            let ghost read = views(arguments@);
            match &self.tokens[self.position].token {
                Token::Symbol(symbol) => {
                    if *symbol == Symbol::ClosingParenthesis {
                        self.next_token();
                        assert(read + Seq::<VariableDefinitionView>::empty() =~= read);
                        break ;
                    } else {
                        return Err(
                            self.unexpected(SyntaxIssue::ExpectedClosingParenthesisOrWord),
                        );
                    }
                },
                Token::Word(_) => {
                    match self.parse_variable_definition() {
                        Err(error) => {
                            return Err(error);
                        },
                        Ok(argument) => {
                            proof {
                                lemma_views_push(arguments@, argument);
                            }
                            arguments.push(argument);
                            if self.at_symbol(Symbol::Comma) {
                                self.next_token();
                            }
                            proof {
                                match grammar_arguments(tokens, self@.position) {
                                    Ok((others, _)) => {
                                        assert(read + (seq![argument@] + others) =~= read.push(
                                            argument@,
                                        ) + others);
                                    },
                                    Err(_) => {},
                                }
                            }
                        },
                    }
                },
            }
        }
        if self.position >= self.tokens.len() {
            return Err(self.at_end());
        }
        Ok(
            FunctionPrototype {
                name: name.clone(),
                arguments,
                location: self.tokens[self.position].location.clone(),
            },
        )
    }

    /// Parses the declaration of a parameter: a word. It is located at the token that follows.
    fn parse_variable_definition(&mut self) -> (result: Result<VariableDefinition, SyntaxError>)
        requires
            old(self).wf(),
            old(self)@.position < old(self)@.tokens.len(),
        ensures
            final(self).wf(),
            final(self)@.tokens == old(self)@.tokens,
            old(self)@.position <= final(self)@.position,
            match token_at(old(self)@.tokens, old(self)@.position).token {
                TokenView::Symbol(_) => {
                    &&& result matches Err(error)
                    &&& error@ == unexpected(
                        old(self)@.tokens,
                        old(self)@.position,
                        SyntaxIssue::ExpectedWord,
                    )
                },
                TokenView::Word(name) => if old(self)@.position + 1 >= old(self)@.tokens.len() {
                    &&& result matches Err(error)
                    &&& error@ == at_end(old(self)@.tokens)
                } else {
                    &&& result matches Ok(argument)
                    &&& argument@ == VariableDefinitionView {
                        name,
                        location: token_at(old(self)@.tokens, old(self)@.position + 1).location,
                    }
                    &&& final(self)@.position == old(self)@.position + 1
                },
            },
    {
        match &self.tokens[self.position].token {
            Token::Word(name) => {
                self.next_token();
                if self.position >= self.tokens.len() {
                    return Err(self.at_end());
                }
                Ok(
                    VariableDefinition {
                        name: name.clone(),
                        location: self.tokens[self.position].location.clone(),
                    },
                )
            },
            Token::Symbol(_) => Err(self.unexpected(SyntaxIssue::ExpectedWord)),
        }
    }

    /// Parses a body: `{`, an expression or nothing, `}`.
    fn parse_function_body(&mut self) -> (result: Result<Expression, SyntaxError>)
        requires
            old(self).wf(),
            old(self)@.tokens.len() > 0,
        ensures
            delivers(
                result,
                grammar_body(old(self)@.tokens, old(self)@.position),
                old(self)@,
                final(self)@,
            ),
    {
        match self.expect(Symbol::OpeningBrace, SyntaxIssue::ExpectedOpeningBrace) {
            Ok(()) => {},
            Err(error) => {
                return Err(error);
            },
        }
        if self.position >= self.tokens.len() {
            return Err(self.at_end());
        }
        if self.at_symbol(Symbol::ClosingBrace) {
            self.next_token();
            return Ok(Expression::Empty);
        }
        let expression = match self.parse_expression() {
            Ok(expression) => expression,
            Err(error) => {
                return Err(error);
            },
        };
        match self.expect(Symbol::ClosingBrace, SyntaxIssue::ExpectedClosingBrace) {
            Ok(()) => Ok(expression),
            Err(error) => Err(error),
        }
    }

    /// Parses an expression: a branch, a call, a literal or a variable.
    fn parse_expression(&mut self) -> (result: Result<Expression, SyntaxError>)
        requires
            old(self).wf(),
            old(self)@.tokens.len() > 0,
        ensures
            delivers(
                result,
                grammar_expression(old(self)@.tokens, old(self)@.position),
                old(self)@,
                final(self)@,
            ),
        decreases old(self)@.tokens.len() - old(self)@.position, 1nat,
    {
        let ghost tokens = self@.tokens;
        let start = self.position;
        if start >= self.tokens.len() {
            return Err(self.at_end());
        }
        let first = &self.tokens[start];
        let word = match &first.token {
            Token::Word(word) => word,
            Token::Symbol(_) => {
                return Err(self.unexpected(SyntaxIssue::ExpectedWord));
            },
        };
        if same_text(word.as_str(), "if") {
            return self.parse_branch();
        }
        self.next_token();
        if self.position >= self.tokens.len() {
            return Err(self.at_end());
        }
        if !self.at_symbol(Symbol::OpeningParenthesis) {
            let location = self.tokens[self.position].location.clone();
            return match parse_number(word.as_str()) {
                Some(value) => Ok(Expression::Literal(Literal::Number(Number { value, location }))),
                None => Ok(Expression::Variable(Variable { name: word.clone(), location })),
            };
        }
        self.next_token();
        let mut parameters: Vec<Expression> = Vec::new();
        let ghost whole = grammar_parameters(tokens, (start + 2) as nat);
        proof {
            match whole {
                Ok((others, _)) => {
                    assert(views(parameters@) + others =~= others);
                },
                Err(_) => {},
            }
        }
        loop
            invariant_except_break
                continues(
                    whole,
                    views(parameters@),
                    (self.position - (start + 2)) as nat,
                    grammar_parameters(tokens, self@.position),
                ),
            invariant
                self.wf(),
                self@.tokens == tokens,
                tokens.len() > 0,
                start + 2 <= self.position,
                start == old(self)@.position,
                tokens == old(self)@.tokens,
                whole == grammar_parameters(tokens, (start + 2) as nat),
                token_at(tokens, start as nat).token == TokenView::Word(word@),
                word@ != "if"@,
                symbol_at(tokens, (start + 1) as nat, Symbol::OpeningParenthesis),
            ensures
                self.wf(),
                self@.tokens == tokens,
                start + 3 <= self.position,
                whole == Ok::<(Seq<ExpressionView>, nat), SyntaxErrorView>(
                    (views(parameters@), (self.position - (start + 3)) as nat),
                ),
            decreases self.tokens@.len() - self.position,
        {
            if self.position >= self.tokens.len() {
                return Err(self.at_end());
            }
            let ghost read = views(parameters@);
            if self.at_symbol(Symbol::ClosingParenthesis) {
                self.next_token();
                assert(read + Seq::<ExpressionView>::empty() =~= read);
                break ;
            }
            match self.parse_expression() {
                Err(error) => {
                    return Err(error);
                },
                Ok(parameter) => {
                    proof {
                        lemma_views_push(parameters@, parameter);
                    }
                    parameters.push(parameter);
                    if self.position >= self.tokens.len() {
                        return Err(self.at_end());
                    }
                    if self.at_symbol(Symbol::Comma) {
                        self.next_token();
                    }
                    proof {
                        match grammar_parameters(tokens, self@.position) {
                            Ok((others, _)) => {
                                assert(read + (seq![parameter@] + others) =~= read.push(
                                    parameter@,
                                ) + others);
                            },
                            Err(_) => {},
                        }
                    }
                },
            }
        }
        let call = FunctionCall { name: word.clone(), parameters, location: first.location.clone() };
        proof {
            lemma_parameters_view(call);
        }
        Ok(Expression::FunctionCall(call))
    }

    /// Parses a branch, the current token being its `if`.
    fn parse_branch(&mut self) -> (result: Result<Expression, SyntaxError>)
        requires
            old(self).wf(),
            old(self)@.position < old(self)@.tokens.len(),
        ensures
            delivers(
                result,
                grammar_branch(old(self)@.tokens, old(self)@.position),
                old(self)@,
                final(self)@,
            ),
        decreases old(self)@.tokens.len() - old(self)@.position, 0nat,
    {
        let location = self.tokens[self.position].location.clone();
        self.next_token();
        let condition = match self.parse_expression() {
            Ok(condition) => condition,
            Err(error) => {
                return Err(error);
            },
        };
        match self.expect(Symbol::OpeningBrace, SyntaxIssue::ExpectedOpeningBrace) {
            Ok(()) => {},
            Err(error) => {
                return Err(error);
            },
        }
        let then_branch = match self.parse_expression() {
            Ok(then_branch) => then_branch,
            Err(error) => {
                return Err(error);
            },
        };
        match self.expect(Symbol::ClosingBrace, SyntaxIssue::ExpectedClosingBrace) {
            Ok(()) => {},
            Err(error) => {
                return Err(error);
            },
        }
        if self.position >= self.tokens.len() {
            return Err(self.at_end());
        }
        let alternative = match &self.tokens[self.position].token {
            Token::Word(word) => same_text(word.as_str(), "else"),
            Token::Symbol(_) => false,
        };
        if !alternative {
            assert(Expression::Empty@ == ExpressionView::Empty);
            return Ok(
                Expression::Branch(
                    Branch {
                        condition: Box::new(condition),
                        then_branch: Box::new(then_branch),
                        else_branch: Box::new(Expression::Empty),
                        location,
                    },
                ),
            );
        }
        self.next_token();
        match self.expect(Symbol::OpeningBrace, SyntaxIssue::ExpectedOpeningBrace) {
            Ok(()) => {},
            Err(error) => {
                return Err(error);
            },
        }
        let else_branch = match self.parse_expression() {
            Ok(else_branch) => else_branch,
            Err(error) => {
                return Err(error);
            },
        };
        match self.expect(Symbol::ClosingBrace, SyntaxIssue::ExpectedClosingBrace) {
            Ok(()) => {},
            Err(error) => {
                return Err(error);
            },
        }
        Ok(
            Expression::Branch(
                Branch {
                    condition: Box::new(condition),
                    then_branch: Box::new(then_branch),
                    else_branch: Box::new(else_branch),
                    location,
                },
            ),
        )
    }

    /// Moves to the next token.
    fn next_token(&mut self)
        requires
            old(self).wf(),
            old(self)@.position < old(self)@.tokens.len(),
        ensures
            final(self).wf(),
            final(self)@.tokens == old(self)@.tokens,
            final(self)@.position == old(self)@.position + 1,
            final(self).tokens == old(self).tokens,
    {
        let length = self.tokens.len();
        assert(self.position < length);
        self.position = self.position + 1;
    }

    /// Whether the current token is the given punctuation.
    fn at_symbol(&self, symbol: Symbol) -> (found: bool)
        requires
            self.wf(),
        ensures
            found == symbol_at(self@.tokens, self@.position, symbol),
    {
        if self.position >= self.tokens.len() {
            return false;
        }
        match &self.tokens[self.position].token {
            Token::Symbol(other) => *other == symbol,
            Token::Word(_) => false,
        }
    }

    /// Moves past the given punctuation, or fails with `issue` where another token stands.
    fn expect(&mut self, symbol: Symbol, issue: SyntaxIssue) -> (result: Result<(), SyntaxError>)
        requires
            old(self).wf(),
            old(self)@.tokens.len() > 0,
        ensures
            final(self).wf(),
            final(self)@.tokens == old(self)@.tokens,
            final(self).tokens == old(self).tokens,
            old(self)@.position <= final(self)@.position,
            if old(self)@.position >= old(self)@.tokens.len() {
                &&& result matches Err(error)
                &&& error@ == at_end(old(self)@.tokens)
            } else if !symbol_at(old(self)@.tokens, old(self)@.position, symbol) {
                &&& result matches Err(error)
                &&& error@ == unexpected(old(self)@.tokens, old(self)@.position, issue)
            } else {
                &&& result is Ok
                &&& final(self)@.position == old(self)@.position + 1
            },
    {
        if self.position >= self.tokens.len() {
            return Err(self.at_end());
        }
        if !self.at_symbol(symbol) {
            return Err(self.unexpected(issue));
        }
        self.next_token();
        Ok(())
    }

    /// The error for a current token that is not the expected one.
    fn unexpected(&self, issue: SyntaxIssue) -> (error: SyntaxError)
        requires
            self.wf(),
            self@.position < self@.tokens.len(),
        ensures
            error@ == unexpected(self@.tokens, self@.position, issue),
    {
        SyntaxError { location: self.tokens[self.position].location.clone(), issue }
    }

    /// The error for tokens that end too early.
    fn at_end(&self) -> (error: SyntaxError)
        requires
            self@.tokens.len() > 0,
        ensures
            error@ == at_end(self@.tokens),
    {
        SyntaxError {
            location: self.tokens[self.tokens.len() - 1].location.clone(),
            issue: SyntaxIssue::UnexpectedEnd,
        }
    }
}

} // verus!
