use idem::ast::Branch;
use idem::ast::Expression;
use idem::ast::FunctionCall;
use idem::ast::FunctionDefinition;
use idem::ast::FunctionPrototype;
use idem::ast::Literal;
use idem::ast::Number;
use idem::ast::Statement;
use idem::ast::Variable;
use idem::ast::VariableDefinition;
use idem::ast::AST;
use idem::lexing::Lexer;
use idem::lexing::Location;
use idem::parsing::Parser;
use idem::parsing::SyntaxError;
use idem::parsing::SyntaxIssue;

fn parse(source: &str) -> Result<AST, SyntaxError> {
    let tokens = Lexer::new("a.id").tokenize(source.chars());
    let mut parser = Parser::new(&tokens);
    parser.parse()
}

fn at(line: usize, column: usize) -> Location {
    Location { path: "a.id".to_string(), line, column }
}

fn failure(source: &str) -> (SyntaxIssue, usize, usize) {
    let error = parse(source).unwrap_err();
    (error.issue, error.location.line, error.location.column)
}

#[test]
fn parse_of_nothing_is_an_empty_program() {
    assert_eq!(parse("").unwrap(), AST { statements: vec![] });
    assert_eq!(parse("# nothing\n").unwrap(), AST { statements: vec![] });
}

#[test]
fn parse_reads_an_empty_body() {
    assert_eq!(
        parse("main() {}").unwrap(),
        AST {
            statements: vec![Statement::FunctionDefinition(FunctionDefinition {
                prototype: FunctionPrototype {
                    name: "main".to_string(),
                    arguments: vec![],
                    location: at(1, 8),
                },
                body: Expression::Empty,
                location: at(1, 1),
            })]
        }
    );
}

#[test]
fn parse_reads_parameters_and_a_variable() {
    assert_eq!(
        parse("f(a, b) { a }").unwrap(),
        AST {
            statements: vec![Statement::FunctionDefinition(FunctionDefinition {
                prototype: FunctionPrototype {
                    name: "f".to_string(),
                    arguments: vec![
                        VariableDefinition { name: "a".to_string(), location: at(1, 4) },
                        VariableDefinition { name: "b".to_string(), location: at(1, 7) },
                    ],
                    location: at(1, 9),
                },
                body: Expression::Variable(Variable { name: "a".to_string(), location: at(1, 13) }),
                location: at(1, 1),
            })]
        }
    );
}

fn body_of(source: &str) -> Expression {
    let mut ast = parse(source).unwrap();
    assert_eq!(ast.statements.len(), 1);
    let Statement::FunctionDefinition(definition) = ast.statements.remove(0);
    definition.body
}

#[test]
fn parse_reads_a_literal() {
    assert_eq!(
        body_of("f() { 42 }"),
        Expression::Literal(Literal::Number(Number { value: 42, location: at(1, 10) }))
    );
    assert_eq!(
        body_of("f() { +7 }"),
        Expression::Literal(Literal::Number(Number { value: 7, location: at(1, 10) }))
    );
    assert_eq!(
        body_of("f() { 4294967295 }"),
        Expression::Literal(Literal::Number(Number { value: 4294967295, location: at(1, 18) }))
    );
}

#[test]
fn parse_reads_a_number_that_does_not_fit_as_a_variable() {
    assert_eq!(
        body_of("f() { 4294967296 }"),
        Expression::Variable(Variable { name: "4294967296".to_string(), location: at(1, 18) })
    );
}

#[test]
fn parse_reads_a_call() {
    assert_eq!(
        body_of("f() { g(1, a) }"),
        Expression::FunctionCall(FunctionCall {
            name: "g".to_string(),
            parameters: vec![
                Expression::Literal(Literal::Number(Number { value: 1, location: at(1, 10) })),
                Expression::Variable(Variable { name: "a".to_string(), location: at(1, 13) }),
            ],
            location: at(1, 7),
        })
    );
    assert_eq!(
        body_of("f() { g() }"),
        Expression::FunctionCall(FunctionCall {
            name: "g".to_string(),
            parameters: vec![],
            location: at(1, 7),
        })
    );
}

#[test]
fn parse_takes_lists_without_commas_and_with_a_last_comma() {
    let with = parse("f(a, b) { g(a, b) }").unwrap();
    let without = parse("f(a  b) { g(a  b) }").unwrap();
    let trailing = parse("f(a, b,) { g(a, b,) }").unwrap();
    assert_eq!(with.statements.len(), 1);
    let Statement::FunctionDefinition(first) = &with.statements[0];
    let Statement::FunctionDefinition(second) = &without.statements[0];
    let Statement::FunctionDefinition(third) = &trailing.statements[0];
    assert_eq!(first.prototype.arguments.len(), 2);
    assert_eq!(second.prototype.arguments.len(), 2);
    assert_eq!(third.prototype.arguments.len(), 2);
    for definition in [first, second, third] {
        match &definition.body {
            Expression::FunctionCall(call) => assert_eq!(call.parameters.len(), 2),
            other => panic!("{:?}", other),
        }
    }
}

#[test]
fn parse_reads_a_branch_with_else() {
    assert_eq!(
        body_of("f() { if a { 1 } else { 2 } }"),
        Expression::Branch(Branch {
            condition: Box::new(Expression::Variable(Variable {
                name: "a".to_string(),
                location: at(1, 12),
            })),
            then_branch: Box::new(Expression::Literal(Literal::Number(Number {
                value: 1,
                location: at(1, 16),
            }))),
            else_branch: Box::new(Expression::Literal(Literal::Number(Number {
                value: 2,
                location: at(1, 27),
            }))),
            location: at(1, 7),
        })
    );
}

#[test]
fn parse_reads_a_branch_without_else() {
    assert_eq!(
        body_of("f() { if a { 1 } }"),
        Expression::Branch(Branch {
            condition: Box::new(Expression::Variable(Variable {
                name: "a".to_string(),
                location: at(1, 12),
            })),
            then_branch: Box::new(Expression::Literal(Literal::Number(Number {
                value: 1,
                location: at(1, 16),
            }))),
            else_branch: Box::new(Expression::Empty),
            location: at(1, 7),
        })
    );
}

#[test]
fn parse_reads_branches_as_parameters() {
    match body_of("f() { g(if a { b } else { c } if d { e }, else) }") {
        Expression::FunctionCall(call) => {
            assert_eq!(call.parameters.len(), 3);
            assert!(matches!(call.parameters[0], Expression::Branch(_)));
            match &call.parameters[1] {
                Expression::Branch(branch) => assert_eq!(*branch.else_branch, Expression::Empty),
                other => panic!("{:?}", other),
            }
            match &call.parameters[2] {
                Expression::Variable(variable) => assert_eq!(variable.name, "else"),
                other => panic!("{:?}", other),
            }
        }
        other => panic!("{:?}", other),
    }
}

#[test]
fn parse_reads_several_definitions() {
    let ast = parse("f(a){ a } main(){ print(f(7)) }").unwrap();
    assert_eq!(ast.statements.len(), 2);
    let Statement::FunctionDefinition(f) = &ast.statements[0];
    let Statement::FunctionDefinition(main) = &ast.statements[1];
    assert_eq!(f.prototype.name, "f");
    assert_eq!(main.prototype.name, "main");
    assert_eq!(main.location, at(1, 11));
}

#[test]
fn parse_takes_else_after_a_block_for_the_keyword() {
    assert_eq!(
        failure("f() { g(if d { e } else) }"),
        (SyntaxIssue::ExpectedOpeningBrace, 1, 24)
    );
}

#[test]
fn parse_expects_a_word_for_a_name() {
    assert_eq!(failure("(a) { a }"), (SyntaxIssue::ExpectedWord, 1, 1));
    assert_eq!(failure("f() { a } }"), (SyntaxIssue::ExpectedWord, 1, 11));
}

#[test]
fn parse_expects_an_opening_parenthesis() {
    assert_eq!(failure("f { a }"), (SyntaxIssue::ExpectedOpeningParenthesis, 1, 3));
    assert_eq!(failure("f g() { a }"), (SyntaxIssue::ExpectedOpeningParenthesis, 1, 3));
}

#[test]
fn parse_expects_a_closing_parenthesis_or_a_word() {
    assert_eq!(failure("f(a { a }"), (SyntaxIssue::ExpectedClosingParenthesisOrWord, 1, 5));
    assert_eq!(failure("f(, a) { a }"), (SyntaxIssue::ExpectedClosingParenthesisOrWord, 1, 3));
}

#[test]
fn parse_expects_an_opening_brace() {
    assert_eq!(failure("f() a }"), (SyntaxIssue::ExpectedOpeningBrace, 1, 5));
    assert_eq!(failure("f() { if a b } }"), (SyntaxIssue::ExpectedOpeningBrace, 1, 12));
    assert_eq!(failure("f() { if a { b } else c }"), (SyntaxIssue::ExpectedOpeningBrace, 1, 23));
}

#[test]
fn parse_expects_a_closing_brace() {
    assert_eq!(failure("f() { a b }"), (SyntaxIssue::ExpectedClosingBrace, 1, 9));
    assert_eq!(failure("f() { if a { b c } }"), (SyntaxIssue::ExpectedClosingBrace, 1, 16));
    assert_eq!(
        failure("f() { if a { b } else { c d } }"),
        (SyntaxIssue::ExpectedClosingBrace, 1, 27)
    );
}

#[test]
fn parse_expects_a_word_for_an_expression() {
    assert_eq!(failure("f() { ( }"), (SyntaxIssue::ExpectedWord, 1, 7));
    assert_eq!(failure("f() { if { a } }"), (SyntaxIssue::ExpectedWord, 1, 10));
    assert_eq!(failure("f() { if a { } }"), (SyntaxIssue::ExpectedWord, 1, 14));
    assert_eq!(failure("f() { g(,) }"), (SyntaxIssue::ExpectedWord, 1, 9));
}

#[test]
fn parse_reports_tokens_that_end_too_early() {
    assert_eq!(failure("f "), (SyntaxIssue::UnexpectedEnd, 1, 1));
    assert_eq!(failure("f("), (SyntaxIssue::UnexpectedEnd, 1, 2));
    assert_eq!(failure("f(a "), (SyntaxIssue::UnexpectedEnd, 1, 3));
    assert_eq!(failure("f()"), (SyntaxIssue::UnexpectedEnd, 1, 3));
    assert_eq!(failure("f() {"), (SyntaxIssue::UnexpectedEnd, 1, 5));
    assert_eq!(failure("f() { a "), (SyntaxIssue::UnexpectedEnd, 1, 7));
    assert_eq!(failure("f() { g( "), (SyntaxIssue::UnexpectedEnd, 1, 8));
    assert_eq!(failure("f() { g(a "), (SyntaxIssue::UnexpectedEnd, 1, 9));
    assert_eq!(failure("f() { if "), (SyntaxIssue::UnexpectedEnd, 1, 7));
    assert_eq!(failure("f() { if a { b }"), (SyntaxIssue::UnexpectedEnd, 1, 16));
    assert_eq!(failure("f() { if a { b } else "), (SyntaxIssue::UnexpectedEnd, 1, 18));
}

#[test]
fn parse_stops_at_the_first_error() {
    assert_eq!(failure("f() { ( ) } g( { }"), (SyntaxIssue::ExpectedWord, 1, 7));
}

#[test]
fn parse_can_go_on_from_where_it_stopped() {
    let tokens = Lexer::new("a.id").tokenize("f() { a }".chars());
    let mut parser = Parser::new(&tokens);
    assert_eq!(parser.parse().unwrap().statements.len(), 1);
    assert_eq!(parser.parse().unwrap().statements.len(), 0);
}

#[test]
fn a_syntax_error_reads_as_location_and_message() {
    assert_eq!(parse("f() a }").unwrap_err().to_string(), "a.id:1:5 expected an opening brace");
    assert_eq!(parse("(").unwrap_err().to_string(), "a.id:1:1 expected a word");
    assert_eq!(
        parse("f {").unwrap_err().to_string(),
        "a.id:1:3 expected an opening parenthesis"
    );
    assert_eq!(
        parse("f({").unwrap_err().to_string(),
        "a.id:1:3 expected a closing parenthesis or a word"
    );
    assert_eq!(
        parse("f(){ a (").unwrap_err().to_string(),
        "a.id:1:8 unexpected end of input"
    );
    assert_eq!(
        parse("f(){ a b").unwrap_err().to_string(),
        "a.id:1:6 unexpected end of input"
    );
    assert_eq!(
        parse("f(){ a b }").unwrap_err().to_string(),
        "a.id:1:8 expected a closing brace"
    );
    assert_eq!(SyntaxIssue::UnexpectedEnd.to_string(), "unexpected end of input");
}
