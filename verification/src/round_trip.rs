//! Formatting is faithful: the text of a parsed program, scanned and parsed again, gives the
//! program back, up to the locations of its nodes.
//!
//! The one exception is a variable whose name ends in a carriage return and which alone
//! fills a block: the line feed that ends the block follows the name, and the indentation of
//! what encloses the block takes the two characters for one line end (see [`sturdy`]).
//!
//! The proof has two halves. Tokens that write a program parse as that program, whatever
//! their locations ([`lemma_program_parses`]); and the text of a program is scanned as the
//! tokens that write it ([`lemma_definitions_scan`]).

use vstd::prelude::*;

use crate::ast::ExpressionView;
use crate::ast::FunctionDefinitionView;
use crate::ast::FunctionPrototypeView;
use crate::ast::ProgramView;
use crate::ast::VariableDefinitionView;
use crate::formatting::block_text;
use crate::formatting::definition_text;
use crate::formatting::definition_texts;
use crate::formatting::expression_text;
use crate::formatting::expressions_texts;
use crate::formatting::indented;
use crate::formatting::indented_piece;
use crate::formatting::indented_pieces;
use crate::formatting::program_text;
use crate::lexing::lemma_scan_in_pieces;
use crate::lexing::lemma_scan_one;
use crate::lexing::symbol_of;
use crate::lexing::LexerView;
use crate::lexing::LocatedTokenView;
use crate::lexing::Symbol;
use crate::lexing::TokenView;
use crate::names::parameter_names;
use crate::native::nowhere;
use crate::parsing::comma_at;
use crate::parsing::grammar_arguments;
use crate::parsing::grammar_branch;
use crate::parsing::grammar_definition;
use crate::parsing::grammar_else;
use crate::parsing::grammar_expression;
use crate::parsing::grammar_parameters;
use crate::parsing::grammar_program;
use crate::parsing::grammar_prototype;
use crate::parsing::grammar_statements;
use crate::parsing::symbol_at;
use crate::parsing::token_at;
use crate::text::decimal;
use crate::text::digit_value;
use crate::text::joined;
use crate::text::lemma_decimal_is_digits;
use crate::text::lemma_decimal_reads_back;
use crate::text::number_of;

verus! {

/// An expression without the locations of its nodes: each is replaced by the same one.
pub open spec fn bare_expression(expression: ExpressionView) -> ExpressionView
    decreases expression,
{
    match expression {
        ExpressionView::FunctionCall { name, parameters, .. } => ExpressionView::FunctionCall {
            name,
            parameters: bare_expressions(parameters),
            location: nowhere(),
        },
        ExpressionView::Branch { condition, then_branch, else_branch, .. } => ExpressionView::Branch {
            condition: Box::new(bare_expression(*condition)),
            then_branch: Box::new(bare_expression(*then_branch)),
            else_branch: Box::new(bare_expression(*else_branch)),
            location: nowhere(),
        },
        ExpressionView::Variable { name, .. } => ExpressionView::Variable {
            name,
            location: nowhere(),
        },
        ExpressionView::Literal { value, .. } => ExpressionView::Literal {
            value,
            location: nowhere(),
        },
        ExpressionView::Empty => ExpressionView::Empty,
    }
}

/// A list of expressions without the locations of their nodes.
pub open spec fn bare_expressions(expressions: Seq<ExpressionView>) -> Seq<ExpressionView>
    decreases expressions,
{
    if expressions.len() == 0 {
        seq![]
    } else {
        seq![bare_expression(expressions[0])] + bare_expressions(expressions.drop_first())
    }
}

/// Parameter declarations without their locations.
pub open spec fn bare_arguments(arguments: Seq<VariableDefinitionView>) -> Seq<
    VariableDefinitionView,
> {
    Seq::new(
        arguments.len(),
        |i: int| VariableDefinitionView { name: arguments[i].name, location: nowhere() },
    )
}

/// A definition without the locations of its nodes.
pub open spec fn bare_definition(definition: FunctionDefinitionView) -> FunctionDefinitionView {
    FunctionDefinitionView {
        prototype: FunctionPrototypeView {
            name: definition.prototype.name,
            arguments: bare_arguments(definition.prototype.arguments),
            location: nowhere(),
        },
        body: bare_expression(definition.body),
        location: nowhere(),
    }
}

/// Definitions without the locations of their nodes.
pub open spec fn bare_definitions(definitions: Seq<FunctionDefinitionView>) -> Seq<
    FunctionDefinitionView,
> {
    Seq::new(definitions.len(), |i: int| bare_definition(definitions[i]))
}

/// A program without the locations of its nodes. Two programs are equal up to locations
/// where they are equal without them.
pub open spec fn bare_program(program: ProgramView) -> ProgramView {
    ProgramView { statements: bare_definitions(program.statements) }
}

/// Declarations of the same names are the same without their locations.
pub proof fn lemma_bare_arguments(
    first: Seq<VariableDefinitionView>,
    second: Seq<VariableDefinitionView>,
)
    requires
        parameter_names(first) == parameter_names(second),
    ensures
        bare_arguments(first) == bare_arguments(second),
{
    assert(first.len() == parameter_names(first).len());
    assert(second.len() == parameter_names(second).len());
    assert forall|i: int| 0 <= i < first.len() implies bare_arguments(first)[i] == bare_arguments(
        second,
    )[i] by {
        assert(parameter_names(first)[i] == parameter_names(second)[i]);
    }
    assert(bare_arguments(first) =~= bare_arguments(second));
}

/// Whether an expression is one that the grammar gives for an expression: its variables
/// and calls are not named `if`, its variables do not read as numbers, and the empty
/// expression stands in it only as the second expression of a branch.
pub open spec fn proper(expression: ExpressionView) -> bool
    decreases expression,
{
    match expression {
        ExpressionView::FunctionCall { name, parameters, .. } => name != "if"@ && all_proper(
            parameters,
        ),
        ExpressionView::Branch { condition, then_branch, else_branch, .. } => proper(*condition)
            && proper(*then_branch) && (*else_branch is Empty || proper(*else_branch)),
        ExpressionView::Variable { name, .. } => name != "if"@ && number_of(name) is None,
        ExpressionView::Literal { .. } => true,
        ExpressionView::Empty => false,
    }
}

/// Whether each expression of a list is one that the grammar gives.
pub open spec fn all_proper(expressions: Seq<ExpressionView>) -> bool
    decreases expressions,
{
    expressions.len() == 0 || (proper(expressions[0]) && all_proper(expressions.drop_first()))
}

/// The word `word` as a token.
pub open spec fn word(word: Seq<char>) -> Seq<TokenView> {
    seq![TokenView::Word(word)]
}

/// The punctuation `symbol` as a token.
pub open spec fn mark(symbol: Symbol) -> Seq<TokenView> {
    seq![TokenView::Symbol(symbol)]
}

/// The tokens that write an expression.
pub open spec fn expression_tokens(expression: ExpressionView) -> Seq<TokenView>
    decreases expression,
{
    match expression {
        ExpressionView::FunctionCall { name, parameters, .. } => word(name) + mark(
            Symbol::OpeningParenthesis,
        ) + parameters_tokens(parameters) + mark(Symbol::ClosingParenthesis),
        ExpressionView::Branch { condition, then_branch, else_branch, .. } => word("if"@)
            + expression_tokens(*condition) + mark(Symbol::OpeningBrace) + expression_tokens(
            *then_branch,
        ) + mark(Symbol::ClosingBrace) + (if *else_branch is Empty {
            seq![]
        } else {
            word("else"@) + mark(Symbol::OpeningBrace) + expression_tokens(*else_branch) + mark(
                Symbol::ClosingBrace,
            )
        }),
        ExpressionView::Variable { name, .. } => word(name),
        ExpressionView::Literal { value, .. } => word(decimal(value as nat)),
        ExpressionView::Empty => seq![],
    }
}

/// The tokens that write the parameters of a call, with a comma between each two.
pub open spec fn parameters_tokens(expressions: Seq<ExpressionView>) -> Seq<TokenView>
    decreases expressions,
{
    if expressions.len() == 0 {
        seq![]
    } else if expressions.len() == 1 {
        expression_tokens(expressions[0])
    } else {
        expression_tokens(expressions[0]) + mark(Symbol::Comma) + parameters_tokens(
            expressions.drop_first(),
        )
    }
}

/// The tokens that write the parameter declarations of a prototype, with a comma between
/// each two.
pub open spec fn arguments_tokens(names: Seq<Seq<char>>) -> Seq<TokenView>
    decreases names.len(),
{
    if names.len() == 0 {
        seq![]
    } else if names.len() == 1 {
        word(names[0])
    } else {
        word(names[0]) + mark(Symbol::Comma) + arguments_tokens(names.drop_first())
    }
}

/// The tokens that write a definition.
pub open spec fn definition_tokens(definition: FunctionDefinitionView) -> Seq<TokenView> {
    word(definition.prototype.name) + mark(Symbol::OpeningParenthesis) + arguments_tokens(
        parameter_names(definition.prototype.arguments),
    ) + mark(Symbol::ClosingParenthesis) + mark(Symbol::OpeningBrace) + expression_tokens(
        definition.body,
    ) + mark(Symbol::ClosingBrace)
}

/// The tokens that write the definitions of a program, one after the other.
pub open spec fn definitions_tokens(definitions: Seq<FunctionDefinitionView>) -> Seq<TokenView>
    decreases definitions.len(),
{
    if definitions.len() == 0 {
        seq![]
    } else {
        definition_tokens(definitions[0]) + definitions_tokens(definitions.drop_first())
    }
}

/// Whether the tokens from `position` on begin with `expected`, whatever their locations.
pub open spec fn spells(
    tokens: Seq<LocatedTokenView>,
    position: nat,
    expected: Seq<TokenView>,
) -> bool {
    &&& position + expected.len() <= tokens.len()
    &&& forall|i: int|
        0 <= i < expected.len() ==> (#[trigger] tokens[position + i]).token == expected[i]
}

/// Whether a token that can follow an expression stands at `position`: `)`, `,`, `{` or `}`.
pub open spec fn closed_at(tokens: Seq<LocatedTokenView>, position: nat) -> bool {
    ||| symbol_at(tokens, position, Symbol::ClosingParenthesis)
    ||| symbol_at(tokens, position, Symbol::Comma)
    ||| symbol_at(tokens, position, Symbol::OpeningBrace)
    ||| symbol_at(tokens, position, Symbol::ClosingBrace)
}

/// Tokens that begin with a run hold each token of the run at its place.
pub proof fn lemma_spelled(
    tokens: Seq<LocatedTokenView>,
    position: nat,
    expected: Seq<TokenView>,
    index: int,
)
    requires
        spells(tokens, position, expected),
        0 <= index < expected.len(),
    ensures
        position + index < tokens.len(),
        token_at(tokens, (position + index) as nat).token == expected[index],
{
    assert(tokens[position + index].token == expected[index]);
}

/// Tokens that begin with two runs begin with the first, and go on with the second.
pub proof fn lemma_spells_both(
    tokens: Seq<LocatedTokenView>,
    position: nat,
    first: Seq<TokenView>,
    second: Seq<TokenView>,
)
    requires
        spells(tokens, position, first + second),
    ensures
        spells(tokens, position, first),
        spells(tokens, position + first.len(), second),
{
    assert forall|i: int| 0 <= i < first.len() implies (#[trigger] tokens[position + i]).token
        == first[i] by {
        assert((first + second)[i] == first[i]);
    }
    assert forall|i: int| 0 <= i < second.len() implies (#[trigger] tokens[position + first.len()
        + i]).token == second[i] by {
        assert((first + second)[first.len() + i] == second[i]);
        assert(tokens[position + (first.len() + i)].token == (first + second)[first.len() + i]);
    }
}

/// A number written in decimal is not the word `if`.
pub proof fn lemma_decimal_is_no_keyword(n: nat)
    ensures
        decimal(n) != "if"@,
{
    reveal_strlit("if");
    lemma_decimal_is_digits(n);
    assert(digit_value(decimal(n)[0]) is Some);
    assert("if"@[0] == 'i');
}

/// The tokens of an expression that the grammar gives begin with a word.
pub proof fn lemma_begins_with_word(expression: ExpressionView)
    requires
        proper(expression),
    ensures
        expression_tokens(expression).len() > 0,
        expression_tokens(expression)[0] is Word,
{
}

/// Whether the tokens from `position` on parse as `expression`, up to locations, and are as
/// many as write it.
pub open spec fn parses_as(
    tokens: Seq<LocatedTokenView>,
    position: nat,
    expression: ExpressionView,
) -> bool {
    grammar_expression(tokens, position) matches Ok((parsed, rest)) && rest + 1
        == expression_tokens(expression).len() && bare_expression(parsed) == bare_expression(
        expression,
    )
}

/// Where the parts of a branch stand among the tokens that write it.
pub struct BranchLayout {
    /// The place of `{` after the condition.
    pub opening: nat,
    /// The place of `}` after the first expression.
    pub closing: nat,
    /// The place of the last `}` of the branch.
    pub end: nat,
}

/// The layout of the branch that is written from `position` on.
pub open spec fn branch_layout(
    position: nat,
    condition: ExpressionView,
    then_branch: ExpressionView,
    else_branch: ExpressionView,
) -> BranchLayout {
    let opening = position + 1 + expression_tokens(condition).len();
    let closing = opening + 1 + expression_tokens(then_branch).len();
    BranchLayout {
        opening,
        closing,
        end: if else_branch is Empty {
            closing
        } else {
            closing + 3 + expression_tokens(else_branch).len()
        },
    }
}

/// The tokens that write a branch hold its parts at the places of its layout.
proof fn lemma_branch_layout(
    tokens: Seq<LocatedTokenView>,
    position: nat,
    condition: ExpressionView,
    then_branch: ExpressionView,
    else_branch: ExpressionView,
    location: crate::lexing::LocationView,
)
    requires
        spells(
            tokens,
            position,
            expression_tokens(
                ExpressionView::Branch {
                    condition: Box::new(condition),
                    then_branch: Box::new(then_branch),
                    else_branch: Box::new(else_branch),
                    location,
                },
            ),
        ),
    ensures
        ({
            let layout = branch_layout(position, condition, then_branch, else_branch);
            &&& position < tokens.len()
            &&& token_at(tokens, position).token == TokenView::Word("if"@)
            &&& spells(tokens, position + 1, expression_tokens(condition))
            &&& symbol_at(tokens, layout.opening, Symbol::OpeningBrace)
            &&& spells(tokens, layout.opening + 1, expression_tokens(then_branch))
            &&& symbol_at(tokens, layout.closing, Symbol::ClosingBrace)
            &&& expression_tokens(
                ExpressionView::Branch {
                    condition: Box::new(condition),
                    then_branch: Box::new(then_branch),
                    else_branch: Box::new(else_branch),
                    location,
                },
            ).len() == layout.end + 1 - position
            &&& !(else_branch is Empty) ==> {
                &&& layout.closing + 1 < tokens.len()
                &&& token_at(tokens, layout.closing + 1).token == TokenView::Word("else"@)
                &&& symbol_at(tokens, layout.closing + 2, Symbol::OpeningBrace)
                &&& spells(tokens, layout.closing + 3, expression_tokens(else_branch))
                &&& symbol_at(tokens, layout.end, Symbol::ClosingBrace)
            }
        }),
{
    let written = expression_tokens(
        ExpressionView::Branch {
            condition: Box::new(condition),
            then_branch: Box::new(then_branch),
            else_branch: Box::new(else_branch),
            location,
        },
    );
    let first = expression_tokens(condition);
    let second = expression_tokens(then_branch);
    let open = mark(Symbol::OpeningBrace);
    let close = mark(Symbol::ClosingBrace);
    let last = if else_branch is Empty {
        Seq::<TokenView>::empty()
    } else {
        word("else"@) + open + expression_tokens(else_branch) + close
    };
    let a = word("if"@);
    let b = a + first;
    let c = b + open;
    let d = c + second;
    let e = d + close;
    assert(written == e + last);
    lemma_spells_both(tokens, position, e, last);
    lemma_spells_both(tokens, position, d, close);
    lemma_spells_both(tokens, position, c, second);
    lemma_spells_both(tokens, position, b, open);
    lemma_spells_both(tokens, position, a, first);
    lemma_spelled(tokens, position, a, 0);
    lemma_spelled(tokens, position + b.len(), open, 0);
    lemma_spelled(tokens, position + d.len(), close, 0);
    if !(else_branch is Empty) {
        let third = expression_tokens(else_branch);
        let f = word("else"@) + open;
        let g = f + third;
        assert(last == g + close);
        lemma_spells_both(tokens, position + e.len(), g, close);
        lemma_spells_both(tokens, position + e.len(), f, third);
        lemma_spelled(tokens, position + e.len(), f, 0);
        lemma_spelled(tokens, position + e.len(), f, 1);
        lemma_spelled(tokens, position + e.len() + g.len(), close, 0);
    }
}

/// A branch whose parts parse at the places of its layout parses as a whole.
proof fn lemma_branch_assembles(
    tokens: Seq<LocatedTokenView>,
    position: nat,
    condition: ExpressionView,
    then_branch: ExpressionView,
    else_branch: ExpressionView,
    location: crate::lexing::LocationView,
)
    requires
        ({
            let layout = branch_layout(position, condition, then_branch, else_branch);
            &&& position < tokens.len()
            &&& token_at(tokens, position).token == TokenView::Word("if"@)
            &&& parses_as(tokens, position + 1, condition)
            &&& symbol_at(tokens, layout.opening, Symbol::OpeningBrace)
            &&& parses_as(tokens, layout.opening + 1, then_branch)
            &&& symbol_at(tokens, layout.closing, Symbol::ClosingBrace)
            &&& if else_branch is Empty {
                closed_at(tokens, layout.closing + 1)
            } else {
                &&& layout.closing + 1 < tokens.len()
                &&& token_at(tokens, layout.closing + 1).token == TokenView::Word("else"@)
                &&& symbol_at(tokens, layout.closing + 2, Symbol::OpeningBrace)
                &&& parses_as(tokens, layout.closing + 3, else_branch)
                &&& symbol_at(tokens, layout.end, Symbol::ClosingBrace)
            }
        }),
    ensures
        ({
            let layout = branch_layout(position, condition, then_branch, else_branch);
            grammar_expression(tokens, position) matches Ok((parsed, rest)) && rest == layout.end
                - position && bare_expression(parsed) == bare_expression(
                ExpressionView::Branch {
                    condition: Box::new(condition),
                    then_branch: Box::new(then_branch),
                    else_branch: Box::new(else_branch),
                    location,
                },
            )
        }),
{
    let layout = branch_layout(position, condition, then_branch, else_branch);
    assert(grammar_expression(tokens, position) == grammar_branch(tokens, position));
    let tested = grammar_expression(tokens, position + 1)->Ok_0;
    let chosen = grammar_expression(tokens, layout.opening + 1)->Ok_0;
    assert(position + 2 + tested.1 == layout.opening);
    assert(layout.opening + 2 + chosen.1 == layout.closing);
    if else_branch is Empty {
        assert(bare_expression(else_branch) == ExpressionView::Empty);
        assert(bare_expression(ExpressionView::Empty) == ExpressionView::Empty);
    } else {
        assert(grammar_branch(tokens, position) == grammar_else(
            tokens,
            position,
            tested.0,
            chosen.0,
            layout.closing + 1,
        ));
    }
}

/// Tokens that write an expression which the grammar gives, followed by a token that can
/// follow an expression, parse as that expression, up to locations.
pub proof fn lemma_expression_parses(
    tokens: Seq<LocatedTokenView>,
    position: nat,
    expression: ExpressionView,
)
    requires
        proper(expression),
        spells(tokens, position, expression_tokens(expression)),
        closed_at(tokens, position + expression_tokens(expression).len()),
    ensures
        parses_as(tokens, position, expression),
    decreases expression, 0nat,
{
    let written = expression_tokens(expression);
    match expression {
        ExpressionView::Literal { value, .. } => {
            lemma_spelled(tokens, position, written, 0);
            lemma_decimal_is_no_keyword(value as nat);
            lemma_decimal_reads_back(value);
        },
        ExpressionView::Variable { name, .. } => {
            lemma_spelled(tokens, position, written, 0);
        },
        ExpressionView::FunctionCall { name, parameters, .. } => {
            let head = word(name) + mark(Symbol::OpeningParenthesis);
            let list = parameters_tokens(parameters);
            let tail = mark(Symbol::ClosingParenthesis);
            assert(written == (head + list) + tail);
            lemma_spells_both(tokens, position, head + list, tail);
            lemma_spells_both(tokens, position, head, list);
            lemma_spelled(tokens, position, head, 0);
            lemma_spelled(tokens, position, head, 1);
            lemma_spelled(tokens, position + (head + list).len(), tail, 0);
            lemma_parameters_parse(tokens, position + 2, parameters);
        },
        ExpressionView::Branch { condition, then_branch, else_branch, location } => {
            let layout = branch_layout(position, *condition, *then_branch, *else_branch);
            lemma_branch_layout(
                tokens,
                position,
                *condition,
                *then_branch,
                *else_branch,
                location,
            );
            lemma_expression_parses(tokens, position + 1, *condition);
            lemma_expression_parses(tokens, layout.opening + 1, *then_branch);
            if !(*else_branch is Empty) {
                lemma_expression_parses(tokens, layout.closing + 3, *else_branch);
            }
            lemma_branch_assembles(
                tokens,
                position,
                *condition,
                *then_branch,
                *else_branch,
                location,
            );
        },
        ExpressionView::Empty => {},
    }
}

/// Tokens that write the parameters of a call, followed by a closing parenthesis, parse as
/// those parameters, up to locations.
pub proof fn lemma_parameters_parse(
    tokens: Seq<LocatedTokenView>,
    position: nat,
    expressions: Seq<ExpressionView>,
)
    requires
        all_proper(expressions),
        spells(tokens, position, parameters_tokens(expressions)),
        symbol_at(
            tokens,
            position + parameters_tokens(expressions).len(),
            Symbol::ClosingParenthesis,
        ),
    ensures
        grammar_parameters(tokens, position) matches Ok((parsed, rest)) && rest
            == parameters_tokens(expressions).len() && bare_expressions(parsed)
            == bare_expressions(expressions),
    decreases expressions, 1nat,
{
    if expressions.len() > 0 {
        let written = parameters_tokens(expressions);
        let first = expression_tokens(expressions[0]);
        let others = expressions.drop_first();
        lemma_begins_with_word(expressions[0]);
        lemma_spelled(tokens, position, written, 0);
        if expressions.len() == 1 {
            lemma_expression_parses(tokens, position, expressions[0]);
            assert(parameters_tokens(others) =~= Seq::<TokenView>::empty());
            lemma_parameters_parse(tokens, position + first.len(), others);
        } else {
            let comma = mark(Symbol::Comma);
            let rest = parameters_tokens(others);
            assert(written == (first + comma) + rest);
            lemma_spells_both(tokens, position, first + comma, rest);
            lemma_spells_both(tokens, position, first, comma);
            lemma_spelled(tokens, position + first.len(), comma, 0);
            lemma_expression_parses(tokens, position, expressions[0]);
            lemma_parameters_parse(tokens, position + first.len() + 1, others);
        }
        let parsed = grammar_parameters(tokens, position)->Ok_0.0;
        assert(parsed.drop_first() =~= grammar_parameters(
            tokens,
            (position + first.len() + comma_at(tokens, position + first.len())) as nat,
        )->Ok_0.0);
    }
}

/// Tokens that write the parameter declarations of a prototype, followed by a closing
/// parenthesis, parse as declarations of those names.
pub proof fn lemma_arguments_parse(
    tokens: Seq<LocatedTokenView>,
    position: nat,
    names: Seq<Seq<char>>,
)
    requires
        spells(tokens, position, arguments_tokens(names)),
        symbol_at(tokens, position + arguments_tokens(names).len(), Symbol::ClosingParenthesis),
    ensures
        grammar_arguments(tokens, position) matches Ok((parsed, rest)) && rest == arguments_tokens(
            names,
        ).len() && parameter_names(parsed) == names,
    decreases names.len(),
{
    if names.len() == 0 {
        assert(parameter_names(Seq::<VariableDefinitionView>::empty()) =~= names);
    } else {
        let written = arguments_tokens(names);
        let others = names.drop_first();
        lemma_spelled(tokens, position, written, 0);
        if names.len() == 1 {
            assert(arguments_tokens(others) =~= Seq::<TokenView>::empty());
            lemma_arguments_parse(tokens, position + 1, others);
        } else {
            let first = word(names[0]);
            let comma = mark(Symbol::Comma);
            let rest = arguments_tokens(others);
            assert(written == (first + comma) + rest);
            lemma_spells_both(tokens, position, first + comma, rest);
            lemma_spelled(tokens, position, first + comma, 1);
            lemma_arguments_parse(tokens, position + 2, others);
        }
        let parsed = grammar_arguments(tokens, position)->Ok_0.0;
        let next = (position + 1 + comma_at(tokens, position + 1)) as nat;
        let later = grammar_arguments(tokens, next)->Ok_0.0;
        assert(parsed =~= seq![
            VariableDefinitionView {
                name: names[0],
                location: token_at(tokens, position + 1).location,
            },
        ] + later);
        assert(parameter_names(parsed) =~= names) by {
            assert forall|i: int| 0 <= i < names.len() implies parameter_names(parsed)[i]
                == names[i] by {
                if i > 0 {
                    assert(parsed[i] == later[i - 1]);
                    assert(parameter_names(later)[i - 1] == others[i - 1]);
                }
            }
        }
    }
}

/// Whether a definition is one that the grammar gives: its body is empty or an expression
/// that the grammar gives.
pub open spec fn proper_definition(definition: FunctionDefinitionView) -> bool {
    definition.body is Empty || proper(definition.body)
}

/// Whether each definition of a program is one that the grammar gives.
pub open spec fn proper_program(program: ProgramView) -> bool {
    forall|i: int|
        0 <= i < program.statements.len() ==> proper_definition(#[trigger] program.statements[i])
}

/// Tokens that write a definition which the grammar gives parse as that definition, up to
/// locations.
pub proof fn lemma_definition_parses(
    tokens: Seq<LocatedTokenView>,
    position: nat,
    definition: FunctionDefinitionView,
)
    requires
        proper_definition(definition),
        spells(tokens, position, definition_tokens(definition)),
    ensures
        grammar_definition(tokens, position) matches Ok((parsed, rest)) && rest + 1
            == definition_tokens(definition).len() && bare_definition(parsed) == bare_definition(
            definition,
        ),
{
    let written = definition_tokens(definition);
    let names = parameter_names(definition.prototype.arguments);
    let a = word(definition.prototype.name) + mark(Symbol::OpeningParenthesis);
    let list = arguments_tokens(names);
    let b = a + list;
    let c = b + mark(Symbol::ClosingParenthesis) + mark(Symbol::OpeningBrace);
    let body = expression_tokens(definition.body);
    let d = c + body;
    let close = mark(Symbol::ClosingBrace);
    assert(written =~= d + close);
    lemma_spells_both(tokens, position, d, close);
    lemma_spells_both(tokens, position, c, body);
    assert(c =~= b + (mark(Symbol::ClosingParenthesis) + mark(Symbol::OpeningBrace)));
    lemma_spells_both(
        tokens,
        position,
        b,
        mark(Symbol::ClosingParenthesis) + mark(Symbol::OpeningBrace),
    );
    lemma_spells_both(tokens, position, a, list);
    lemma_spelled(tokens, position, a, 0);
    lemma_spelled(tokens, position, a, 1);
    lemma_spelled(
        tokens,
        position + b.len(),
        mark(Symbol::ClosingParenthesis) + mark(Symbol::OpeningBrace),
        0,
    );
    lemma_spelled(
        tokens,
        position + b.len(),
        mark(Symbol::ClosingParenthesis) + mark(Symbol::OpeningBrace),
        1,
    );
    lemma_spelled(tokens, position + d.len(), close, 0);
    lemma_arguments_parse(tokens, position + 2, names);
    let opening = (position + c.len() - 1) as nat;
    assert(symbol_at(tokens, opening, Symbol::OpeningBrace));
    if definition.body is Empty {
        assert(body =~= Seq::<TokenView>::empty());
        assert(bare_expression(ExpressionView::Empty) == ExpressionView::Empty);
    } else {
        lemma_begins_with_word(definition.body);
        lemma_spelled(tokens, position + c.len(), body, 0);
        lemma_expression_parses(tokens, opening + 1, definition.body);
    }
    let prototype = grammar_prototype(tokens, position)->Ok_0;
    assert(position + 1 + prototype.1 == opening);
    lemma_bare_arguments(prototype.0.arguments, definition.prototype.arguments);
}

/// Tokens that write definitions which the grammar gives, and end with them, parse as those
/// definitions, up to locations.
pub proof fn lemma_definitions_parse(
    tokens: Seq<LocatedTokenView>,
    position: nat,
    definitions: Seq<FunctionDefinitionView>,
)
    requires
        forall|i: int| 0 <= i < definitions.len() ==> proper_definition(#[trigger] definitions[i]),
        spells(tokens, position, definitions_tokens(definitions)),
        position + definitions_tokens(definitions).len() == tokens.len(),
    ensures
        grammar_statements(tokens, position) matches Ok(parsed) && bare_definitions(parsed)
            == bare_definitions(definitions),
    decreases definitions.len(),
{
    if definitions.len() == 0 {
        assert(bare_definitions(Seq::<FunctionDefinitionView>::empty()) =~= bare_definitions(
            definitions,
        ));
    } else {
        let first = definition_tokens(definitions[0]);
        let others = definitions.drop_first();
        lemma_spells_both(tokens, position, first, definitions_tokens(others));
        assert(proper_definition(definitions[0]));
        lemma_definition_parses(tokens, position, definitions[0]);
        assert forall|i: int| 0 <= i < others.len() implies proper_definition(
            #[trigger] others[i],
        ) by {
            assert(others[i] == definitions[i + 1]);
        }
        lemma_definitions_parse(tokens, position + first.len(), others);
        let head = grammar_definition(tokens, position)->Ok_0;
        let later = grammar_statements(tokens, position + first.len())->Ok_0;
        let parsed = grammar_statements(tokens, position)->Ok_0;
        assert(parsed =~= seq![head.0] + later);
        assert(later.len() == bare_definitions(later).len());
        assert(others.len() == bare_definitions(others).len());
        assert(bare_definitions(parsed) =~= bare_definitions(definitions)) by {
            assert forall|i: int| 0 <= i < definitions.len() implies bare_definitions(parsed)[i]
                == bare_definitions(definitions)[i] by {
                if i > 0 {
                    assert(parsed[i] == later[i - 1]);
                    assert(bare_definitions(later)[i - 1] == bare_definitions(others)[i - 1]);
                    assert(others[i - 1] == definitions[i]);
                }
            }
        }
    }
}

/// Parsing is the inverse of writing: tokens that write a program which the grammar gives,
/// whatever their locations, parse as that program, up to locations.
pub proof fn lemma_program_parses(tokens: Seq<LocatedTokenView>, program: ProgramView)
    requires
        proper_program(program),
        spells(tokens, 0, definitions_tokens(program.statements)),
        tokens.len() == definitions_tokens(program.statements).len(),
    ensures
        grammar_program(tokens) matches Ok(parsed) && bare_program(parsed) == bare_program(
            program,
        ),
{
    lemma_definitions_parse(tokens, 0, program.statements);
}

/// Whether a character can stand in a word: it is no punctuation, no space, tab or line
/// feed, and no `#`.
pub open spec fn is_letter(c: char) -> bool {
    symbol_of(c) is None && c != ' ' && c != '\t' && c != '\n' && c != '#'
}

/// Whether a text is a word: one or more letters.
pub open spec fn is_name(text: Seq<char>) -> bool {
    text.len() > 0 && forall|i: int| 0 <= i < text.len() ==> is_letter(#[trigger] text[i])
}

/// Whether each word among the tokens is a name.
pub open spec fn words_are_names(tokens: Seq<LocatedTokenView>) -> bool {
    forall|i: int|
        0 <= i < tokens.len() ==> ((#[trigger] tokens[i]).token matches TokenView::Word(text)
            ==> is_name(text))
}

/// Whether each name in an expression is a name.
pub open spec fn legible(expression: ExpressionView) -> bool
    decreases expression,
{
    match expression {
        ExpressionView::FunctionCall { name, parameters, .. } => is_name(name) && all_legible(
            parameters,
        ),
        ExpressionView::Branch { condition, then_branch, else_branch, .. } => legible(*condition)
            && legible(*then_branch) && legible(*else_branch),
        ExpressionView::Variable { name, .. } => is_name(name),
        _ => true,
    }
}

/// Whether each name in a list of expressions is a name.
pub open spec fn all_legible(expressions: Seq<ExpressionView>) -> bool
    decreases expressions,
{
    expressions.len() == 0 || (legible(expressions[0]) && all_legible(expressions.drop_first()))
}

/// Whether each name in a definition is a name.
pub open spec fn legible_definition(definition: FunctionDefinitionView) -> bool {
    &&& is_name(definition.prototype.name)
    &&& forall|i: int|
        0 <= i < definition.prototype.arguments.len() ==> is_name(
            (#[trigger] definition.prototype.arguments[i]).name,
        )
    &&& legible(definition.body)
}

/// What the grammar gives for an expression is proper, and its names are names where the
/// words among the tokens are.
pub proof fn lemma_parsed_expression(tokens: Seq<LocatedTokenView>, position: nat)
    ensures
        grammar_expression(tokens, position) matches Ok((parsed, _)) ==> proper(parsed) && (
        words_are_names(tokens) ==> legible(parsed)),
    decreases tokens.len() - position, 1nat,
{
    if position < tokens.len() {
        let first = tokens[position as int];
        match first.token {
            TokenView::Symbol(_) => {},
            TokenView::Word(text) => {
                if text == "if"@ {
                    lemma_parsed_branch(tokens, position);
                } else if position + 1 < tokens.len() {
                    if symbol_at(tokens, position + 1, Symbol::OpeningParenthesis) {
                        lemma_parsed_parameters(tokens, position + 2);
                    }
                }
            },
        }
    }
}

/// What the grammar gives for a branch is proper, and its names are names where the words
/// among the tokens are.
pub proof fn lemma_parsed_branch(tokens: Seq<LocatedTokenView>, position: nat)
    requires
        position < tokens.len(),
    ensures
        grammar_branch(tokens, position) matches Ok((parsed, _)) ==> proper(parsed) && (
        words_are_names(tokens) ==> legible(parsed)),
    decreases tokens.len() - position, 0nat,
{
    lemma_parsed_expression(tokens, position + 1);
    assert(legible(ExpressionView::Empty));
    if let Ok((condition, condition_rest)) = grammar_expression(tokens, position + 1) {
        let opening = position + 2 + condition_rest;
        if opening < tokens.len() && symbol_at(tokens, opening, Symbol::OpeningBrace) {
            lemma_parsed_expression(tokens, opening + 1);
            if let Ok((then_branch, then_rest)) = grammar_expression(tokens, opening + 1) {
                let closing = opening + 2 + then_rest;
                if closing + 1 < tokens.len() && symbol_at(tokens, closing, Symbol::ClosingBrace)
                    && token_at(tokens, closing + 1).token == TokenView::Word("else"@) {
                    if closing + 2 < tokens.len() && symbol_at(
                        tokens,
                        closing + 2,
                        Symbol::OpeningBrace,
                    ) {
                        lemma_parsed_expression(tokens, closing + 3);
                    }
                }
            }
        }
    }
}

/// What the grammar gives for the parameters of a call is proper, and its names are names
/// where the words among the tokens are.
pub proof fn lemma_parsed_parameters(tokens: Seq<LocatedTokenView>, position: nat)
    ensures
        grammar_parameters(tokens, position) matches Ok((parsed, _)) ==> all_proper(parsed) && (
        words_are_names(tokens) ==> all_legible(parsed)),
    decreases tokens.len() - position, 2nat,
{
    if position < tokens.len() && !symbol_at(tokens, position, Symbol::ClosingParenthesis) {
        lemma_parsed_expression(tokens, position);
        if let Ok((parameter, rest)) = grammar_expression(tokens, position) {
            let after = position + 1 + rest;
            if after < tokens.len() {
                let next = after + comma_at(tokens, after);
                lemma_parsed_parameters(tokens, next);
                if let Ok((others, _)) = grammar_parameters(tokens, next) {
                    let parsed = seq![parameter] + others;
                    assert(parsed.drop_first() =~= others);
                }
            }
        }
    }
}

/// The declarations that the grammar gives have names where the words among the tokens are.
pub proof fn lemma_parsed_arguments(tokens: Seq<LocatedTokenView>, position: nat)
    requires
        words_are_names(tokens),
    ensures
        grammar_arguments(tokens, position) matches Ok((parsed, _)) ==> forall|i: int|
            0 <= i < parsed.len() ==> is_name((#[trigger] parsed[i]).name),
    decreases tokens.len() - position,
{
    if position < tokens.len() {
        if let TokenView::Word(name) = tokens[position as int].token {
            if position + 1 < tokens.len() {
                let next = position + 1 + comma_at(tokens, position + 1);
                lemma_parsed_arguments(tokens, next);
                if let Ok((others, _)) = grammar_arguments(tokens, next) {
                    let parsed = grammar_arguments(tokens, position)->Ok_0.0;
                    assert forall|i: int| 0 <= i < parsed.len() implies is_name(
                        (#[trigger] parsed[i]).name,
                    ) by {
                        if i > 0 {
                            assert(parsed[i] == others[i - 1]);
                        }
                    }
                }
            }
        }
    }
}

/// The definitions that the grammar gives are proper, and their names are names where the
/// words among the tokens are.
pub proof fn lemma_parsed_statements(tokens: Seq<LocatedTokenView>, position: nat)
    requires
        words_are_names(tokens),
    ensures
        grammar_statements(tokens, position) matches Ok(parsed) ==> forall|i: int|
            0 <= i < parsed.len() ==> proper_definition(#[trigger] parsed[i])
                && legible_definition(parsed[i]),
    decreases tokens.len() - position,
{
    if position < tokens.len() {
        if let Ok((definition, rest)) = grammar_definition(tokens, position) {
            lemma_parsed_statements(tokens, position + 1 + rest);
            lemma_parsed_arguments(tokens, position + 2);
            let prototype = grammar_prototype(tokens, position)->Ok_0;
            let opening = position + 1 + prototype.1;
            lemma_parsed_expression(tokens, opening + 1);
            assert(proper_definition(definition) && legible_definition(definition));
            if let Ok(others) = grammar_statements(tokens, position + 1 + rest) {
                let parsed = grammar_statements(tokens, position)->Ok_0;
                assert forall|i: int| 0 <= i < parsed.len() implies proper_definition(
                    #[trigger] parsed[i],
                ) && legible_definition(parsed[i]) by {
                    if i > 0 {
                        assert(parsed[i] == others[i - 1]);
                    }
                }
            }
        }
    }
}

/// The words that scanning a text gives are names, and so is the word that stays pending.
pub proof fn lemma_scanned_words(state: LexerView, text: Seq<char>)
    requires
        state.word matches Some(pending) ==> is_name(pending),
    ensures
        words_are_names(state.tokens(text)),
        state.run(text).word matches Some(pending) ==> is_name(pending),
    decreases text.len(),
{
    if text.len() > 0 {
        let before = text.drop_last();
        lemma_scanned_words(state, before);
        let reached = state.run(before);
        let earlier = state.tokens(before);
        let added = reached.emits(text.last());
        let all = state.tokens(text);
        assert(all == earlier + added);
        assert forall|i: int| 0 <= i < all.len() implies ((#[trigger] all[i]).token matches TokenView::Word(
            found,
        ) ==> is_name(found)) by {
            if i < earlier.len() {
                assert(all[i] == earlier[i]);
            } else {
                assert(all[i] == added[i - earlier.len()]);
            }
        }
        if let Some(pending) = state.run(text).word {
            if !reached.in_comment && is_letter(text.last()) {
                match reached.word {
                    Some(old) => {
                        assert forall|i: int| 0 <= i < pending.len() implies is_letter(
                            #[trigger] pending[i],
                        ) by {
                            if i < old.len() {
                                assert(pending[i] == old[i]);
                            }
                        }
                    },
                    None => {},
                }
            }
        }
    }
}

/// The tokens without their locations.
pub open spec fn kinds(tokens: Seq<LocatedTokenView>) -> Seq<TokenView> {
    Seq::new(tokens.len(), |i: int| tokens[i].token)
}

/// Whether the scanner is between tokens: outside a comment, with no pending word.
pub open spec fn clean(state: LexerView) -> bool {
    state.word is None && !state.in_comment
}

/// Whether two states of the scanner differ in their place only.
pub open spec fn alike(first: LexerView, second: LexerView) -> bool {
    first.word == second.word && first.in_comment == second.in_comment
}

/// States that differ in their place only give the same tokens for a character, up to
/// locations, and then still differ in their place only.
pub proof fn lemma_alike_step(first: LexerView, second: LexerView, c: char)
    requires
        alike(first, second),
    ensures
        alike(first.step(c), second.step(c)),
        kinds(first.emits(c)) == kinds(second.emits(c)),
{
    assert(kinds(first.emits(c)) =~= kinds(second.emits(c)));
}

/// States that differ in their place only give the same tokens for a text, up to locations,
/// and then still differ in their place only.
pub proof fn lemma_alike_run(first: LexerView, second: LexerView, text: Seq<char>)
    requires
        alike(first, second),
    ensures
        alike(first.run(text), second.run(text)),
        kinds(first.tokens(text)) == kinds(second.tokens(text)),
    decreases text.len(),
{
    if text.len() == 0 {
        assert(kinds(first.tokens(text)) =~= kinds(second.tokens(text)));
    } else {
        let before = text.drop_last();
        lemma_alike_run(first, second, before);
        lemma_alike_step(first.run(before), second.run(before), text.last());
        lemma_kinds_add(first.tokens(before), first.run(before).emits(text.last()));
        lemma_kinds_add(second.tokens(before), second.run(before).emits(text.last()));
    }
}

/// The tokens of two runs joined, without locations, are those of each, joined.
pub proof fn lemma_kinds_add(first: Seq<LocatedTokenView>, second: Seq<LocatedTokenView>)
    ensures
        kinds(first + second) == kinds(first) + kinds(second),
{
    assert(kinds(first + second) =~= kinds(first) + kinds(second));
}

/// Whether a character ends a word and starts no comment: punctuation, space, tab or line
/// feed.
pub open spec fn is_delimiter(c: char) -> bool {
    symbol_of(c) is Some || c == ' ' || c == '\t' || c == '\n'
}

/// The token that a delimiter is: one for punctuation, none for white space.
pub open spec fn delimiter_tokens(c: char) -> Seq<TokenView> {
    match symbol_of(c) {
        Some(symbol) => mark(symbol),
        None => seq![],
    }
}

/// Whether scanning a text between tokens gives the `expected` tokens, up to locations, and
/// ends between tokens.
pub open spec fn scans_to(text: Seq<char>, expected: Seq<TokenView>) -> bool {
    forall|state: LexerView|
        clean(state) ==> kinds(#[trigger] state.tokens(text)) == expected && clean(
            state.run(text),
        )
}

/// Two texts that are scanned between tokens, one after the other, give the tokens of both.
pub proof fn lemma_scans_both(
    first: Seq<char>,
    first_tokens: Seq<TokenView>,
    second: Seq<char>,
    second_tokens: Seq<TokenView>,
)
    requires
        scans_to(first, first_tokens),
        scans_to(second, second_tokens),
    ensures
        scans_to(first + second, first_tokens + second_tokens),
{
    assert forall|state: LexerView| clean(state) implies kinds(
        #[trigger] state.tokens(first + second),
    ) == first_tokens + second_tokens && clean(state.run(first + second)) by {
        lemma_scan_in_pieces(state, first, second);
        let middle = state.run(first);
        assert(kinds(state.tokens(first)) == first_tokens);
        assert(kinds(middle.tokens(second)) == second_tokens);
        lemma_kinds_add(state.tokens(first), middle.tokens(second));
    }
}

/// A delimiter that is scanned between tokens gives its token.
pub proof fn lemma_scans_delimiter(c: char)
    requires
        is_delimiter(c),
    ensures
        scans_to(seq![c], delimiter_tokens(c)),
{
    assert forall|state: LexerView| clean(state) implies kinds(#[trigger] state.tokens(seq![c]))
        == delimiter_tokens(c) && clean(state.run(seq![c])) by {
        lemma_scan_one(state, c);
        assert(kinds(state.emits(c)) =~= delimiter_tokens(c));
    }
}

/// Letters that are scanned outside a comment give no token and join the pending word.
pub proof fn lemma_scans_letters(state: LexerView, letters: Seq<char>)
    requires
        !state.in_comment,
        forall|i: int| 0 <= i < letters.len() ==> is_letter(#[trigger] letters[i]),
    ensures
        state.tokens(letters) == Seq::<LocatedTokenView>::empty(),
        state.run(letters) == (LexerView {
            word: if letters.len() == 0 {
                state.word
            } else {
                Some(
                    match state.word {
                        Some(pending) => pending + letters,
                        None => letters,
                    },
                )
            },
            ..state
        }),
    decreases letters.len(),
{
    if letters.len() > 0 {
        let before = letters.drop_last();
        lemma_scans_letters(state, before);
        assert(is_letter(letters[letters.len() - 1]));
        let word = state.run(letters).word->Some_0;
        match state.word {
            Some(pending) => {
                assert(word =~= pending + letters);
            },
            None => {
                assert(word =~= letters);
            },
        }
    }
}

/// A name and the delimiter after it, scanned between tokens, give the name as a word and
/// the token of the delimiter.
pub proof fn lemma_scans_name(name: Seq<char>, delimiter: char)
    requires
        is_name(name),
        is_delimiter(delimiter),
    ensures
        scans_to(name + seq![delimiter], word(name) + delimiter_tokens(delimiter)),
{
    let text = name + seq![delimiter];
    assert forall|state: LexerView| clean(state) implies kinds(#[trigger] state.tokens(text))
        == word(name) + delimiter_tokens(delimiter) && clean(state.run(text)) by {
        lemma_scans_letters(state, name);
        lemma_scan_in_pieces(state, name, seq![delimiter]);
        let middle = state.run(name);
        lemma_scan_one(middle, delimiter);
        assert(kinds(middle.emits(delimiter)) =~= word(name) + delimiter_tokens(delimiter));
        assert(state.tokens(text) =~= middle.emits(delimiter));
    }
}

/// Scanning one more character is one more step.
pub proof fn lemma_scan_push(state: LexerView, text: Seq<char>, c: char)
    ensures
        state.run(text.push(c)) == state.run(text).step(c),
        state.tokens(text.push(c)) == state.tokens(text) + state.run(text).emits(c),
{
    assert(text.push(c).drop_last() =~= text);
}

/// Whether a text holds no `#` and no carriage return directly before a line feed: what
/// indentation leaves as it is, but for the tabs it adds.
pub open spec fn tidy(text: Seq<char>) -> bool {
    forall|i: int|
        0 <= i < text.len() ==> (#[trigger] text[i]) != '#' && (text[i] == '\r' && i + 1
            < text.len() ==> text[i + 1] != '\n')
}

/// Whether a text ends in a character other than a line feed.
pub open spec fn open_ended(text: Seq<char>) -> bool {
    text.len() > 0 && text.last() != '\n'
}

/// Whether a text ends in a character other than a line feed or a carriage return.
pub open spec fn firm(text: Seq<char>) -> bool {
    text.len() > 0 && text.last() != '\n' && text.last() != '\r'
}

/// The first characters of an indented text are scanned like those of the text itself: the
/// tabs that indentation adds stand between tokens.
proof fn lemma_indented_prefix(state: LexerView, text: Seq<char>, count: nat)
    requires
        clean(state),
        tidy(text),
        open_ended(text),
        count <= text.len(),
    ensures
        ({
            let indented = seq!['\t'] + indented_pieces(text, count);
            let plain = text.take(count as int);
            &&& alike(state.run(indented), state.run(plain))
            &&& !state.run(plain).in_comment
            &&& kinds(state.tokens(indented)) == kinds(state.tokens(plain))
        }),
    decreases count,
{
    let indented = seq!['\t'] + indented_pieces(text, count);
    let plain = text.take(count as int);
    if count == 0 {
        assert(indented =~= seq!['\t']);
        assert(plain =~= Seq::<char>::empty());
        lemma_scan_one(state, '\t');
        assert(kinds(state.tokens(indented)) =~= kinds(state.tokens(plain)));
    } else {
        let before = (count - 1) as nat;
        lemma_indented_prefix(state, text, before);
        let c = text[before as int];
        let shorter = seq!['\t'] + indented_pieces(text, before);
        let fewer = text.take(before as int);
        assert(plain =~= fewer.push(c));
        lemma_scan_push(state, fewer, c);
        let left = state.run(shorter);
        let right = state.run(fewer);
        lemma_alike_step(left, right, c);
        lemma_kinds_add(state.tokens(fewer), right.emits(c));
        assert(text[before as int] != '#');
        assert(c == '\r' && before + 1 < text.len() ==> text[before as int + 1] != '\n');
        if c == '\n' {
            assert(before + 1 < text.len());
            assert(indented_piece(text, before as int) =~= seq!['\n', '\t']);
            assert(indented =~= shorter.push('\n').push('\t'));
            lemma_scan_push(state, shorter, '\n');
            lemma_scan_push(state, shorter.push('\n'), '\t');
            let broken = left.step('\n');
            lemma_kinds_add(state.tokens(shorter), left.emits('\n'));
            lemma_kinds_add(state.tokens(shorter.push('\n')), broken.emits('\t'));
            assert(kinds(broken.emits('\t')) =~= Seq::<TokenView>::empty());
            assert(kinds(state.tokens(indented)) =~= kinds(state.tokens(plain)));
        } else {
            assert(indented_piece(text, before as int) =~= seq![c]);
            assert(indented =~= shorter.push(c));
            lemma_scan_push(state, shorter, c);
            lemma_kinds_add(state.tokens(shorter), left.emits(c));
        }
    }
}

/// An indented text before a line feed is scanned like the text itself.
pub proof fn lemma_scans_indented(text: Seq<char>, expected: Seq<TokenView>)
    requires
        tidy(text),
        text.len() > 0 ==> open_ended(text),
        scans_to(text + seq!['\n'], expected),
    ensures
        scans_to(indented(text) + seq!['\n'], expected),
{
    if text.len() > 0 {
        let end = seq!['\n'];
        assert forall|state: LexerView| clean(state) implies kinds(
            #[trigger] state.tokens(indented(text) + end),
        ) == expected && clean(state.run(indented(text) + end)) by {
            lemma_indented_prefix(state, text, text.len());
            assert(text.take(text.len() as int) =~= text);
            let left = state.run(indented(text));
            let right = state.run(text);
            lemma_scan_in_pieces(state, indented(text), end);
            lemma_scan_in_pieces(state, text, end);
            lemma_alike_run(left, right, end);
            lemma_kinds_add(state.tokens(indented(text)), left.tokens(end));
            lemma_kinds_add(state.tokens(text), right.tokens(end));
            assert(kinds(state.tokens(text + end)) == expected);
            assert(clean(state.run(text + end)));
        }
    }
}

/// The first of two or more texts that are joined comes first, then the separator, then the
/// others, joined.
pub proof fn lemma_joined_front(parts: Seq<Seq<char>>, separator: Seq<char>)
    requires
        parts.len() >= 2,
    ensures
        joined(parts, separator) == parts[0] + separator + joined(parts.drop_first(), separator),
    decreases parts.len(),
{
    let shorter = parts.drop_last();
    let others = parts.drop_first();
    if parts.len() == 2 {
        assert(shorter =~= seq![parts[0]]);
        assert(others =~= seq![parts[1]]);
        assert(joined(shorter, separator) == parts[0]);
        assert(joined(others, separator) == parts[1]);
    } else {
        lemma_joined_front(shorter, separator);
        assert(shorter.drop_first() =~= others.drop_last());
        assert(joined(parts, separator) =~= parts[0] + separator + joined(others, separator));
    }
}

/// The text of the first of some expressions comes first among their texts.
pub proof fn lemma_texts_front(expressions: Seq<ExpressionView>)
    requires
        expressions.len() > 0,
    ensures
        expressions_texts(expressions) == seq![expression_text(expressions[0])]
            + expressions_texts(expressions.drop_first()),
    decreases expressions.len(),
{
    let shorter = expressions.drop_last();
    let others = expressions.drop_first();
    if expressions.len() == 1 {
        assert(expressions_texts(shorter) =~= Seq::<Seq<char>>::empty());
        assert(expressions_texts(others) =~= Seq::<Seq<char>>::empty());
        assert(expressions_texts(expressions) =~= seq![expression_text(expressions[0])]);
    } else {
        lemma_texts_front(shorter);
        assert(shorter.drop_first() =~= others.drop_last());
        assert(expressions_texts(expressions) =~= seq![expression_text(expressions[0])]
            + expressions_texts(others));
    }
}

/// Two tidy texts joined are tidy, unless the first ends in a carriage return and the
/// second begins with a line feed.
pub proof fn lemma_tidy_both(first: Seq<char>, second: Seq<char>)
    requires
        tidy(first),
        tidy(second),
        first.len() == 0 || second.len() == 0 || first.last() != '\r' || second[0] != '\n',
    ensures
        tidy(first + second),
{
    let both = first + second;
    assert forall|i: int| 0 <= i < both.len() implies (#[trigger] both[i]) != '#' && (both[i]
        == '\r' && i + 1 < both.len() ==> both[i + 1] != '\n') by {
        if i < first.len() {
            assert(both[i] == first[i]);
            if i + 1 < first.len() {
                assert(both[i + 1] == first[i + 1]);
            } else if i + 1 < both.len() {
                assert(both[i + 1] == second[0]);
            }
        } else {
            assert(both[i] == second[i - first.len()]);
            if i + 1 < both.len() {
                assert(both[i + 1] == second[i + 1 - first.len()]);
            }
        }
    }
}

/// What indentation makes of the first characters of a tidy text is tidy, and ends in a
/// carriage return only where those characters do.
proof fn lemma_indented_pieces_are_tidy(text: Seq<char>, count: nat)
    requires
        tidy(text),
        count <= text.len(),
    ensures
        tidy(indented_pieces(text, count)),
        indented_pieces(text, count).len() > 0 && indented_pieces(text, count).last() == '\r'
            ==> count > 0 && text[count - 1] == '\r',
    decreases count,
{
    if count > 0 {
        lemma_indented_pieces_are_tidy(text, (count - 1) as nat);
        let before = indented_pieces(text, (count - 1) as nat);
        let piece = indented_piece(text, count - 1);
        let c = text[count - 1];
        assert(c != '#');
        assert(c == '\r' && count < text.len() ==> text[count as int] != '\n');
        if before.len() > 0 && before.last() == '\r' {
            assert(text[count - 2] == '\r');
            assert(c != '\n');
        }
        if c == '\n' {
            if count < text.len() {
                assert(piece =~= seq!['\n', '\t']);
            } else {
                assert(piece =~= Seq::<char>::empty());
            }
        } else {
            assert(piece =~= seq![c]);
        }
        assert(tidy(piece));
        lemma_tidy_both(before, piece);
        assert(before + piece =~= indented_pieces(text, count));
    }
}

/// A tidy text stays tidy when it is indented, and ends as it did unless it ended in a
/// line feed.
pub proof fn lemma_indented_is_tidy(text: Seq<char>)
    requires
        tidy(text),
    ensures
        tidy(indented(text)),
        open_ended(text) ==> indented(text).len() > 0 && indented(text).last() == text.last(),
{
    lemma_indented_pieces_are_tidy(text, text.len());
    if text.len() > 0 {
        assert(tidy(seq!['\t']));
        lemma_tidy_both(seq!['\t'], indented_pieces(text, text.len()));
        if open_ended(text) {
            let before = indented_pieces(text, (text.len() - 1) as nat);
            assert(indented_piece(text, text.len() - 1) =~= seq![text.last()]);
            assert(indented(text) =~= (seq!['\t'] + before).push(text.last()));
        }
    }
}

/// A name is tidy and ends in a letter.
pub proof fn lemma_name_is_tidy(name: Seq<char>)
    requires
        is_name(name),
    ensures
        tidy(name),
        open_ended(name),
{
    assert forall|i: int| 0 <= i < name.len() implies (#[trigger] name[i]) != '#' && (name[i]
        == '\r' && i + 1 < name.len() ==> name[i + 1] != '\n') by {
        assert(is_letter(name[i]));
        if i + 1 < name.len() {
            assert(is_letter(name[i + 1]));
        }
    }
    assert(is_letter(name[name.len() - 1]));
}

/// A number written in decimal is a name that ends in a digit.
pub proof fn lemma_decimal_is_name(n: nat)
    ensures
        is_name(decimal(n)),
        firm(decimal(n)),
{
    lemma_decimal_is_digits(n);
    let text = decimal(n);
    assert forall|i: int| 0 <= i < text.len() implies is_letter(#[trigger] text[i]) by {
        assert(digit_value(text[i]) is Some);
    }
    assert(digit_value(text[text.len() - 1]) is Some);
}

/// The rest of a block after the space that begins it: the brace, the indented text on
/// lines of its own, the closing brace.
pub open spec fn block_rest(text: Seq<char>) -> Seq<char> {
    seq!['{', '\n'] + indented(text) + seq!['\n', '}']
}

/// A block is a space and the rest of the block.
pub proof fn lemma_block_text(text: Seq<char>)
    ensures
        block_text(text) == seq![' '] + block_rest(text),
{
    reveal_strlit(" {\n");
    reveal_strlit("\n}");
    assert(" {\n"@ =~= seq![' ', '{', '\n']);
    assert("\n}"@ =~= seq!['\n', '}']);
    assert(block_text(text) =~= seq![' '] + block_rest(text));
}

/// The block of a tidy text that is scanned, before a line feed, as some tokens is scanned
/// as those tokens between braces.
pub proof fn lemma_scans_block(text: Seq<char>, expected: Seq<TokenView>)
    requires
        tidy(text),
        text.len() > 0 ==> open_ended(text),
        scans_to(text + seq!['\n'], expected),
    ensures
        scans_to(
            block_rest(text),
            mark(Symbol::OpeningBrace) + expected + mark(Symbol::ClosingBrace),
        ),
{
    let a = seq!['{'];
    let b = seq!['\n'];
    let c = indented(text) + seq!['\n'];
    let d = seq!['}'];
    lemma_scans_delimiter('{');
    lemma_scans_delimiter('\n');
    lemma_scans_delimiter('}');
    lemma_scans_indented(text, expected);
    let none = Seq::<TokenView>::empty();
    lemma_scans_both(a, mark(Symbol::OpeningBrace), b, none);
    lemma_scans_both(a + b, mark(Symbol::OpeningBrace) + none, c, expected);
    lemma_scans_both(
        a + b + c,
        mark(Symbol::OpeningBrace) + none + expected,
        d,
        mark(Symbol::ClosingBrace),
    );
    assert(block_rest(text) =~= a + b + c + d);
    assert(mark(Symbol::OpeningBrace) + none + expected + mark(Symbol::ClosingBrace) =~= mark(
        Symbol::OpeningBrace,
    ) + expected + mark(Symbol::ClosingBrace));
}

/// The block of a tidy text that ends in neither a line feed nor a carriage return is tidy
/// and ends in a brace.
pub proof fn lemma_block_is_tidy(text: Seq<char>)
    requires
        tidy(text),
        text.len() > 0 ==> firm(text),
    ensures
        tidy(block_rest(text)),
        firm(block_rest(text)),
{
    let open = seq!['{', '\n'];
    let close = seq!['\n', '}'];
    lemma_indented_is_tidy(text);
    assert(tidy(open));
    assert(tidy(close));
    lemma_tidy_both(open, indented(text));
    assert((open + indented(text)).last() != '\r') by {
        if text.len() > 0 {
            assert((open + indented(text)).last() == indented(text).last());
        } else {
            assert(open + indented(text) =~= open);
        }
    }
    lemma_tidy_both(open + indented(text), close);
    assert(block_rest(text).last() == '}');
}

/// Whether an expression is a variable whose name ends in a carriage return.
pub open spec fn ends_in_return(expression: ExpressionView) -> bool {
    expression matches ExpressionView::Variable { name, .. } && name.len() > 0 && name.last()
        == '\r'
}

/// Whether indentation leaves the text of an expression as it is: neither expression of a
/// branch in it is a variable whose name ends in a carriage return. The line feed that
/// ends the block would follow such a name, and the indentation of what encloses the block
/// takes a carriage return and a line feed for one line end.
pub open spec fn sturdy(expression: ExpressionView) -> bool
    decreases expression,
{
    match expression {
        ExpressionView::FunctionCall { parameters, .. } => all_sturdy(parameters),
        ExpressionView::Branch { condition, then_branch, else_branch, .. } => sturdy(*condition)
            && sturdy(*then_branch) && sturdy(*else_branch) && !ends_in_return(*then_branch)
            && !ends_in_return(*else_branch),
        _ => true,
    }
}

/// Whether indentation leaves the text of each expression of a list as it is.
pub open spec fn all_sturdy(expressions: Seq<ExpressionView>) -> bool
    decreases expressions,
{
    expressions.len() == 0 || (sturdy(expressions[0]) && all_sturdy(expressions.drop_first()))
}

/// Whether indentation leaves the text of each body of a program as it is.
pub open spec fn sturdy_program(program: ProgramView) -> bool {
    forall|i: int|
        0 <= i < program.statements.len() ==> sturdy((#[trigger] program.statements[i]).body)
}

/// Whether the text of an expression is tidy, ends in a character other than a line feed,
/// ends in a carriage return only where the expression is a variable whose name does, and,
/// before the delimiter `delimiter`, is scanned as the tokens that write the expression.
pub open spec fn scans_as(expression: ExpressionView, delimiter: char) -> bool {
    &&& tidy(expression_text(expression))
    &&& open_ended(expression_text(expression))
    &&& expression_text(expression).last() == '\r' ==> ends_in_return(expression)
    &&& scans_to(
        expression_text(expression) + seq![delimiter],
        expression_tokens(expression) + delimiter_tokens(delimiter),
    )
}

/// The text of a branch up to the end of its first block.
pub open spec fn branch_head(condition: ExpressionView, then_branch: ExpressionView) -> Seq<char> {
    "if "@ + expression_text(condition) + block_text(expression_text(then_branch))
}

/// The tokens that write a branch up to the end of its first block.
pub open spec fn branch_head_tokens(
    condition: ExpressionView,
    then_branch: ExpressionView,
) -> Seq<TokenView> {
    word("if"@) + expression_tokens(condition) + mark(Symbol::OpeningBrace) + expression_tokens(
        then_branch,
    ) + mark(Symbol::ClosingBrace)
}

/// The text of a branch from `else` on.
pub open spec fn branch_tail(else_branch: ExpressionView) -> Seq<char> {
    " else"@ + block_text(expression_text(else_branch))
}

/// The tokens that write a branch from `else` on.
pub open spec fn branch_tail_tokens(else_branch: ExpressionView) -> Seq<TokenView> {
    word("else"@) + mark(Symbol::OpeningBrace) + expression_tokens(else_branch) + mark(
        Symbol::ClosingBrace,
    )
}

/// A keyword and the space after it are scanned as the keyword.
proof fn lemma_scans_keyword(keyword: Seq<char>)
    requires
        is_name(keyword),
    ensures
        scans_to(keyword + seq![' '], word(keyword)),
        tidy(keyword + seq![' ']),
{
    lemma_scans_name(keyword, ' ');
    assert(word(keyword) + delimiter_tokens(' ') =~= word(keyword));
    lemma_name_is_tidy(keyword);
    assert(tidy(seq![' ']));
    lemma_tidy_both(keyword, seq![' ']);
}

/// The block of an expression that is scanned as the tokens that write it, and is no
/// variable whose name ends in a carriage return, is scanned as those tokens between
/// braces; it is tidy and ends in a brace.
proof fn lemma_scans_block_of(expression: ExpressionView)
    requires
        scans_as(expression, '\n'),
        !ends_in_return(expression),
    ensures
        scans_to(
            block_rest(expression_text(expression)),
            mark(Symbol::OpeningBrace) + expression_tokens(expression) + mark(
                Symbol::ClosingBrace,
            ),
        ),
        tidy(block_rest(expression_text(expression))),
        firm(block_rest(expression_text(expression))),
        block_text(expression_text(expression)) == seq![' '] + block_rest(
            expression_text(expression),
        ),
{
    let text = expression_text(expression);
    assert(expression_tokens(expression) + delimiter_tokens('\n') =~= expression_tokens(
        expression,
    ));
    lemma_scans_block(text, expression_tokens(expression));
    lemma_block_is_tidy(text);
    lemma_block_text(text);
}

/// The head of a branch whose parts are scanned as the tokens that write them is scanned
/// as the tokens that write it.
proof fn lemma_branch_head_scans(condition: ExpressionView, then_branch: ExpressionView)
    requires
        scans_as(condition, ' '),
        scans_as(then_branch, '\n'),
        !ends_in_return(then_branch),
    ensures
        scans_to(
            branch_head(condition, then_branch),
            branch_head_tokens(condition, then_branch),
        ),
        tidy(branch_head(condition, then_branch)),
        firm(branch_head(condition, then_branch)),
{
    reveal_strlit("if ");
    reveal_strlit("if");
    let keyword = "if"@;
    assert(keyword =~= seq!['i', 'f']);
    assert("if "@ =~= keyword + seq![' ']);
    assert(is_name(keyword));
    lemma_scans_keyword(keyword);
    lemma_scans_block_of(then_branch);
    let a = keyword + seq![' '];
    let b = expression_text(condition) + seq![' '];
    let c = block_rest(expression_text(then_branch));
    let a_tokens = word(keyword);
    let b_tokens = expression_tokens(condition);
    let c_tokens = mark(Symbol::OpeningBrace) + expression_tokens(then_branch) + mark(
        Symbol::ClosingBrace,
    );
    assert(expression_tokens(condition) + delimiter_tokens(' ') =~= b_tokens);
    lemma_scans_both(a, a_tokens, b, b_tokens);
    lemma_scans_both(a + b, a_tokens + b_tokens, c, c_tokens);
    assert(tidy(seq![' ']));
    lemma_tidy_both(expression_text(condition), seq![' ']);
    assert(a.last() == ' ');
    lemma_tidy_both(a, b);
    assert((a + b).last() == ' ');
    lemma_tidy_both(a + b, c);
    assert((a + b + c).last() == c.last());
    assert(branch_head(condition, then_branch) =~= a + b + c);
    assert(branch_head_tokens(condition, then_branch) =~= a_tokens + b_tokens + c_tokens);
}

/// The tail of a branch whose second expression is scanned as the tokens that write it is
/// scanned as the tokens that write the tail.
proof fn lemma_branch_tail_scans(else_branch: ExpressionView)
    requires
        scans_as(else_branch, '\n'),
        !ends_in_return(else_branch),
    ensures
        scans_to(branch_tail(else_branch), branch_tail_tokens(else_branch)),
        tidy(branch_tail(else_branch)),
        firm(branch_tail(else_branch)),
        branch_tail(else_branch)[0] == ' ',
{
    reveal_strlit(" else");
    reveal_strlit("else");
    let keyword = "else"@;
    assert(keyword =~= seq!['e', 'l', 's', 'e']);
    assert(" else"@ =~= seq![' '] + keyword);
    assert(is_name(keyword));
    lemma_scans_keyword(keyword);
    lemma_scans_delimiter(' ');
    lemma_scans_block_of(else_branch);
    let none = Seq::<TokenView>::empty();
    let a = seq![' '];
    let b = keyword + seq![' '];
    let c = block_rest(expression_text(else_branch));
    let b_tokens = word(keyword);
    let c_tokens = mark(Symbol::OpeningBrace) + expression_tokens(else_branch) + mark(
        Symbol::ClosingBrace,
    );
    assert(delimiter_tokens(' ') =~= none);
    lemma_scans_both(a, none, b, b_tokens);
    lemma_scans_both(a + b, none + b_tokens, c, c_tokens);
    assert(tidy(a));
    lemma_tidy_both(a, b);
    assert((a + b).last() == ' ');
    lemma_tidy_both(a + b, c);
    assert((a + b + c).last() == c.last());
    assert((a + b + c)[0] == ' ');
    assert(branch_tail(else_branch) =~= a + b + c);
    assert(branch_tail_tokens(else_branch) =~= none + b_tokens + c_tokens);
}

/// A branch whose parts are scanned as the tokens that write them is scanned as the tokens
/// that write it.
proof fn lemma_branch_scans(
    condition: ExpressionView,
    then_branch: ExpressionView,
    else_branch: ExpressionView,
    location: crate::lexing::LocationView,
    delimiter: char,
)
    requires
        is_delimiter(delimiter),
        scans_as(condition, ' '),
        scans_as(then_branch, '\n'),
        !ends_in_return(then_branch),
        !(else_branch is Empty) ==> scans_as(else_branch, '\n') && !ends_in_return(
            else_branch,
        ),
    ensures
        scans_as(
            ExpressionView::Branch {
                condition: Box::new(condition),
                then_branch: Box::new(then_branch),
                else_branch: Box::new(else_branch),
                location,
            },
            delimiter,
        ),
{
    let branch = ExpressionView::Branch {
        condition: Box::new(condition),
        then_branch: Box::new(then_branch),
        else_branch: Box::new(else_branch),
        location,
    };
    let head = branch_head(condition, then_branch);
    let head_tokens = branch_head_tokens(condition, then_branch);
    let end = seq![delimiter];
    lemma_branch_head_scans(condition, then_branch);
    lemma_scans_delimiter(delimiter);
    if else_branch is Empty {
        lemma_scans_both(head, head_tokens, end, delimiter_tokens(delimiter));
        assert(expression_text(branch) =~= head);
        assert(expression_tokens(branch) =~= head_tokens);
    } else {
        let tail = branch_tail(else_branch);
        let tail_tokens = branch_tail_tokens(else_branch);
        lemma_branch_tail_scans(else_branch);
        lemma_scans_both(head, head_tokens, tail, tail_tokens);
        lemma_scans_both(head + tail, head_tokens + tail_tokens, end, delimiter_tokens(delimiter));
        lemma_tidy_both(head, tail);
        assert((head + tail).last() == tail.last());
        assert(expression_text(branch) =~= head + tail);
        assert(expression_tokens(branch) =~= head_tokens + tail_tokens);
    }
}

/// The text of an expression that the grammar gives, with names for names, is scanned,
/// before a delimiter, as the tokens that write the expression.
pub proof fn lemma_expression_scans(expression: ExpressionView, delimiter: char)
    requires
        proper(expression),
        legible(expression),
        sturdy(expression),
        is_delimiter(delimiter),
    ensures
        scans_as(expression, delimiter),
    decreases expression, 0nat,
{
    match expression {
        ExpressionView::Literal { value, .. } => {
            lemma_decimal_is_name(value as nat);
            lemma_name_is_tidy(decimal(value as nat));
            lemma_scans_name(decimal(value as nat), delimiter);
        },
        ExpressionView::Variable { name, .. } => {
            lemma_name_is_tidy(name);
            lemma_scans_name(name, delimiter);
        },
        ExpressionView::FunctionCall { name, parameters, .. } => {
            reveal_strlit("(");
            reveal_strlit(")");
            assert("("@ =~= seq!['(']);
            assert(")"@ =~= seq![')']);
            lemma_parameters_scan(parameters);
            lemma_scans_name(name, '(');
            lemma_scans_delimiter(delimiter);
            lemma_name_is_tidy(name);
            let list = joined(expressions_texts(parameters), ", "@);
            let a = name + seq!['('];
            let b = list + seq![')'];
            let a_tokens = word(name) + mark(Symbol::OpeningParenthesis);
            let b_tokens = parameters_tokens(parameters) + mark(Symbol::ClosingParenthesis);
            lemma_scans_both(a, a_tokens, b, b_tokens);
            lemma_scans_both(a + b, a_tokens + b_tokens, seq![delimiter], delimiter_tokens(delimiter));
            assert(tidy(seq!['(']));
            assert(tidy(seq![')']));
            lemma_tidy_both(name, seq!['(']);
            lemma_tidy_both(list, seq![')']);
            assert(a.last() == '(');
            lemma_tidy_both(a, b);
            assert((a + b).last() == ')');
            assert(expression_text(expression) =~= a + b);
            assert(expression_tokens(expression) =~= a_tokens + b_tokens);
        },
        ExpressionView::Branch { condition, then_branch, else_branch, location } => {
            lemma_expression_scans(*condition, ' ');
            lemma_expression_scans(*then_branch, '\n');
            if !(*else_branch is Empty) {
                lemma_expression_scans(*else_branch, '\n');
            }
            lemma_branch_scans(*condition, *then_branch, *else_branch, location, delimiter);
        },
        ExpressionView::Empty => {},
    }
}

/// The texts of the parameters of a call, joined, are tidy and are scanned, before the
/// closing parenthesis, as the tokens that write the parameters.
pub proof fn lemma_parameters_scan(expressions: Seq<ExpressionView>)
    requires
        all_proper(expressions),
        all_legible(expressions),
        all_sturdy(expressions),
    ensures
        tidy(joined(expressions_texts(expressions), ", "@)),
        scans_to(
            joined(expressions_texts(expressions), ", "@) + seq![')'],
            parameters_tokens(expressions) + mark(Symbol::ClosingParenthesis),
        ),
    decreases expressions, 1nat,
{
    let texts = expressions_texts(expressions);
    let list = joined(texts, ", "@);
    let close = mark(Symbol::ClosingParenthesis);
    if expressions.len() == 0 {
        lemma_scans_delimiter(')');
        assert(list + seq![')'] =~= seq![')']);
        assert(parameters_tokens(expressions) + close =~= close);
    } else {
        let others = expressions.drop_first();
        lemma_texts_front(expressions);
        let first = expression_text(expressions[0]);
        if expressions.len() == 1 {
            lemma_expression_scans(expressions[0], ')');
            assert(expressions_texts(others) =~= Seq::<Seq<char>>::empty());
            assert(texts =~= seq![first]);
            assert(list == first);
        } else {
            reveal_strlit(", ");
            assert(", "@ =~= seq![',', ' ']);
            lemma_expression_scans(expressions[0], ',');
            lemma_parameters_scan(others);
            lemma_scans_delimiter(' ');
            assert(texts.drop_first() =~= expressions_texts(others));
            lemma_joined_front(texts, ", "@);
            let rest = joined(expressions_texts(others), ", "@);
            let none = Seq::<TokenView>::empty();
            let a = first + seq![','];
            let b = seq![' '];
            let c = rest + seq![')'];
            let a_tokens = expression_tokens(expressions[0]) + mark(Symbol::Comma);
            let c_tokens = parameters_tokens(others) + close;
            lemma_scans_both(a, a_tokens, b, none);
            lemma_scans_both(a + b, a_tokens + none, c, c_tokens);
            assert(list + seq![')'] =~= a + b + c);
            assert(parameters_tokens(expressions) + close =~= a_tokens + none + c_tokens);
            assert(tidy(seq![',', ' ']));
            lemma_tidy_both(first, seq![',', ' ']);
            assert((first + seq![',', ' ']).last() == ' ');
            lemma_tidy_both(first + seq![',', ' '], rest);
            assert(list =~= first + seq![',', ' '] + rest);
        }
    }
}

/// Names joined by a comma and a space are tidy and are scanned, before the closing
/// parenthesis, as the tokens that write parameter declarations of those names.
pub proof fn lemma_arguments_scan(names: Seq<Seq<char>>)
    requires
        forall|i: int| 0 <= i < names.len() ==> is_name(#[trigger] names[i]),
    ensures
        tidy(joined(names, ", "@)),
        scans_to(
            joined(names, ", "@) + seq![')'],
            arguments_tokens(names) + mark(Symbol::ClosingParenthesis),
        ),
    decreases names.len(),
{
    let list = joined(names, ", "@);
    let close = mark(Symbol::ClosingParenthesis);
    if names.len() == 0 {
        lemma_scans_delimiter(')');
        assert(list + seq![')'] =~= seq![')']);
        assert(arguments_tokens(names) + close =~= close);
    } else {
        let others = names.drop_first();
        assert(is_name(names[0]));
        lemma_name_is_tidy(names[0]);
        if names.len() == 1 {
            lemma_scans_name(names[0], ')');
        } else {
            reveal_strlit(", ");
            assert(", "@ =~= seq![',', ' ']);
            assert forall|i: int| 0 <= i < others.len() implies is_name(#[trigger] others[i]) by {
                assert(others[i] == names[i + 1]);
            }
            lemma_scans_name(names[0], ',');
            lemma_arguments_scan(others);
            lemma_scans_delimiter(' ');
            lemma_joined_front(names, ", "@);
            let rest = joined(others, ", "@);
            let none = Seq::<TokenView>::empty();
            let a = names[0] + seq![','];
            let b = seq![' '];
            let c = rest + seq![')'];
            let a_tokens = word(names[0]) + mark(Symbol::Comma);
            let c_tokens = arguments_tokens(others) + close;
            lemma_scans_both(a, a_tokens, b, none);
            lemma_scans_both(a + b, a_tokens + none, c, c_tokens);
            assert(list + seq![')'] =~= a + b + c);
            assert(arguments_tokens(names) + close =~= a_tokens + none + c_tokens);
            assert(tidy(seq![',', ' ']));
            lemma_tidy_both(names[0], seq![',', ' ']);
            assert((names[0] + seq![',', ' ']).last() == ' ');
            lemma_tidy_both(names[0] + seq![',', ' '], rest);
            assert(list =~= names[0] + seq![',', ' '] + rest);
        }
    }
}

/// The text of a definition that the grammar gives, with names for names, is scanned as
/// the tokens that write the definition.
pub proof fn lemma_definition_scans(definition: FunctionDefinitionView)
    requires
        proper_definition(definition),
        legible_definition(definition),
        sturdy(definition.body),
    ensures
        scans_to(definition_text(definition), definition_tokens(definition)),
{
    reveal_strlit("(");
    reveal_strlit(")");
    assert("("@ =~= seq!['(']);
    assert(")"@ =~= seq![')']);
    let name = definition.prototype.name;
    let names = parameter_names(definition.prototype.arguments);
    assert forall|i: int| 0 <= i < names.len() implies is_name(#[trigger] names[i]) by {
        assert(is_name(definition.prototype.arguments[i].name));
    }
    let body = expression_text(definition.body);
    let none = Seq::<TokenView>::empty();
    lemma_scans_name(name, '(');
    lemma_arguments_scan(names);
    lemma_scans_delimiter(' ');
    lemma_block_text(body);
    if definition.body is Empty {
        lemma_scans_delimiter('\n');
        assert(body + seq!['\n'] =~= seq!['\n']);
        assert(expression_tokens(definition.body) + none =~= none);
    } else {
        lemma_expression_scans(definition.body, '\n');
    }
    lemma_scans_block(body, expression_tokens(definition.body) + none);
    let a = name + seq!['('];
    let b = joined(names, ", "@) + seq![')'];
    let c = seq![' '];
    let d = block_rest(body);
    let a_tokens = word(name) + mark(Symbol::OpeningParenthesis);
    let b_tokens = arguments_tokens(names) + mark(Symbol::ClosingParenthesis);
    let d_tokens = mark(Symbol::OpeningBrace) + (expression_tokens(definition.body) + none)
        + mark(Symbol::ClosingBrace);
    lemma_scans_both(a, a_tokens, b, b_tokens);
    lemma_scans_both(a + b, a_tokens + b_tokens, c, none);
    lemma_scans_both(a + b + c, a_tokens + b_tokens + none, d, d_tokens);
    assert(definition_text(definition) =~= a + b + c + d);
    assert(definition_tokens(definition) =~= a_tokens + b_tokens + none + d_tokens);
}

/// The texts of definitions that the grammar gives, with names for names, joined by empty
/// lines, are scanned as the tokens that write the definitions.
pub proof fn lemma_definitions_scan(definitions: Seq<FunctionDefinitionView>)
    requires
        forall|i: int|
            0 <= i < definitions.len() ==> proper_definition(#[trigger] definitions[i])
                && legible_definition(definitions[i]) && sturdy(definitions[i].body),
    ensures
        scans_to(
            joined(Seq::new(definitions.len(), |i: int| definition_text(definitions[i])), "\n\n"@),
            definitions_tokens(definitions),
        ),
    decreases definitions.len(),
{
    let texts = Seq::new(definitions.len(), |i: int| definition_text(definitions[i]));
    let none = Seq::<TokenView>::empty();
    if definitions.len() == 0 {
        assert forall|state: LexerView| clean(state) implies kinds(
            #[trigger] state.tokens(Seq::<char>::empty()),
        ) == none && clean(state.run(Seq::<char>::empty())) by {
            assert(kinds(state.tokens(Seq::<char>::empty())) =~= none);
        }
    } else {
        let others = definitions.drop_first();
        let later = Seq::new(others.len(), |i: int| definition_text(others[i]));
        assert(proper_definition(definitions[0]) && legible_definition(definitions[0])
            && sturdy(definitions[0].body));
        lemma_definition_scans(definitions[0]);
        if definitions.len() == 1 {
            assert(definitions_tokens(others) =~= none);
            assert(definitions_tokens(definitions) =~= definition_tokens(definitions[0]));
        } else {
            reveal_strlit("\n\n");
            assert("\n\n"@ =~= seq!['\n'] + seq!['\n']);
            assert forall|i: int| 0 <= i < others.len() implies proper_definition(
                #[trigger] others[i],
            ) && legible_definition(others[i]) && sturdy(others[i].body) by {
                assert(others[i] == definitions[i + 1]);
            }
            lemma_definitions_scan(others);
            lemma_scans_delimiter('\n');
            lemma_scans_both(seq!['\n'], none, seq!['\n'], none);
            assert(texts.drop_first() =~= later);
            lemma_joined_front(texts, "\n\n"@);
            let a = definition_text(definitions[0]);
            let b = seq!['\n'] + seq!['\n'];
            let c = joined(later, "\n\n"@);
            lemma_scans_both(a, definition_tokens(definitions[0]), b, none + none);
            lemma_scans_both(
                a + b,
                definition_tokens(definitions[0]) + (none + none),
                c,
                definitions_tokens(others),
            );
            assert(definitions_tokens(definitions) =~= definition_tokens(definitions[0]) + (none
                + none) + definitions_tokens(others));
        }
    }
}

/// Formatting is faithful. Where a source is scanned and parsed into a program, and
/// indentation leaves the text of that program as it is, that text is scanned and parsed
/// into the same program, up to the locations of its nodes.
pub proof fn theorem_format_then_parse(
    path: Seq<char>,
    source: Seq<char>,
    program: ProgramView,
    other_path: Seq<char>,
)
    requires
        grammar_program(LexerView::start(path).tokens(source)) == Ok::<
            ProgramView,
            crate::parsing::SyntaxErrorView,
        >(program),
        sturdy_program(program),
    ensures
        grammar_program(LexerView::start(other_path).tokens(program_text(program))) matches Ok(
            parsed,
        ) && bare_program(parsed) == bare_program(program),
{
    let tokens = LexerView::start(path).tokens(source);
    lemma_scanned_words(LexerView::start(path), source);
    lemma_parsed_statements(tokens, 0);
    let definitions = program.statements;
    assert(proper_program(program));
    lemma_definitions_scan(definitions);
    assert(definition_texts(program) =~= Seq::new(
        definitions.len(),
        |i: int| definition_text(definitions[i]),
    ));
    let start = LexerView::start(other_path);
    let written = start.tokens(program_text(program));
    assert(clean(start));
    assert(kinds(written) == definitions_tokens(definitions));
    assert(spells(written, 0, definitions_tokens(definitions))) by {
        assert forall|i: int| 0 <= i < definitions_tokens(definitions).len() implies (
        #[trigger] written[0 + i]).token == definitions_tokens(definitions)[i] by {
            assert(kinds(written)[i] == written[i].token);
        }
    }
    assert(kinds(written).len() == written.len());
    lemma_program_parses(written, program);
}

} // verus!
