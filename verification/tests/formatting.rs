use idem::ast::Branch;
use idem::ast::Expression;
use idem::ast::FunctionCall;
use idem::ast::FunctionDefinition;
use idem::ast::FunctionPrototype;
use idem::ast::Literal;
use idem::ast::Number;
use idem::ast::Statement;
use idem::ast::Variable;
use idem::ast::VariableDefinition;
use idem::ast::AST;
use idem::formatting::indent;
use idem::formatting::Formattable;
use idem::lexing::Lexer;
use idem::lexing::Location;
use idem::parsing::Parser;

fn parse(source: &str) -> AST {
    let tokens = Lexer::new("a.id").tokenize(source.chars());
    let mut parser = Parser::new(&tokens);
    parser.parse().unwrap()
}

fn nowhere() -> Location {
    Location { path: String::new(), line: 0, column: 0 }
}

fn number(value: u32) -> Expression {
    Expression::Literal(Literal::Number(Number { value, location: nowhere() }))
}

fn variable(name: &str) -> Expression {
    Expression::Variable(Variable { name: name.to_string(), location: nowhere() })
}

#[test]
fn indent_puts_a_tab_before_each_line() {
    assert_eq!(indent(""), "");
    assert_eq!(indent("a"), "\ta");
    assert_eq!(indent("a\nb"), "\ta\n\tb");
    assert_eq!(indent("a\n\nb"), "\ta\n\t\n\tb");
    assert_eq!(indent("\ta\n}"), "\t\ta\n\t}");
}

#[test]
fn indent_drops_the_last_line_feed() {
    assert_eq!(indent("a\n"), "\ta");
    assert_eq!(indent("\n"), "\t");
    assert_eq!(indent("a\n\n"), "\ta\n\t");
}

#[test]
fn indent_takes_a_carriage_return_and_a_line_feed_for_a_line_end() {
    assert_eq!(indent("a\r\nb"), "\ta\n\tb");
    assert_eq!(indent("a\r\n"), "\ta");
    assert_eq!(indent("a\r"), "\ta\r");
    assert_eq!(indent("a\rb"), "\ta\rb");
    assert_eq!(indent("a\r\r\nb"), "\ta\r\n\tb");
}

#[test]
fn indent_agrees_with_the_lines_of_the_standard_library() {
    for text in ["", "a", "a\nb", "a\n", "\n", "\n\n", "a\r\nb\r\n", "\r", "\r\n\r\n", "a\r\r\n", "x\n\ty\n}"] {
        let expected = text.lines().map(|line| format!("\t{}", line)).collect::<Vec<String>>().join("\n");
        assert_eq!(indent(text), expected);
    }
}

#[test]
fn a_literal_is_written_in_decimal() {
    assert_eq!(number(0).format(), "0");
    assert_eq!(number(4294967295).format(), "4294967295");
    assert_eq!(Literal::Number(Number { value: 42, location: nowhere() }).format(), "42");
}

#[test]
fn a_variable_is_written_by_its_name() {
    assert_eq!(variable("abc").format(), "abc");
    assert_eq!(Variable { name: "x".to_string(), location: nowhere() }.format(), "x");
    assert_eq!(VariableDefinition { name: "y".to_string(), location: nowhere() }.format(), "y");
}

#[test]
fn the_empty_expression_is_written_as_nothing() {
    assert_eq!(Expression::Empty.format(), "");
}

#[test]
fn a_call_is_written_with_its_parameters() {
    let call = |parameters| FunctionCall { name: "f".to_string(), parameters, location: nowhere() };
    assert_eq!(call(vec![]).format(), "f()");
    assert_eq!(call(vec![number(1)]).format(), "f(1)");
    assert_eq!(call(vec![number(1), variable("a"), number(3)]).format(), "f(1, a, 3)");
    assert_eq!(
        Expression::FunctionCall(call(vec![Expression::FunctionCall(call(vec![]))])).format(),
        "f(f())"
    );
}

#[test]
fn a_branch_is_written_on_lines() {
    let branch = Branch {
        condition: Box::new(variable("a")),
        then_branch: Box::new(number(1)),
        else_branch: Box::new(number(2)),
        location: nowhere(),
    };
    assert_eq!(branch.format(), "if a {\n\t1\n} else {\n\t2\n}");
    let short = Branch {
        condition: Box::new(variable("a")),
        then_branch: Box::new(number(1)),
        else_branch: Box::new(Expression::Empty),
        location: nowhere(),
    };
    assert_eq!(short.format(), "if a {\n\t1\n}");
    let nested = Branch {
        condition: Box::new(variable("b")),
        then_branch: Box::new(Expression::Branch(short)),
        else_branch: Box::new(Expression::Branch(branch)),
        location: nowhere(),
    };
    assert_eq!(
        Expression::Branch(nested).format(),
        "if b {\n\tif a {\n\t\t1\n\t}\n} else {\n\tif a {\n\t\t1\n\t} else {\n\t\t2\n\t}\n}"
    );
}

#[test]
fn a_prototype_is_written_with_its_parameters() {
    let prototype = |names: &[&str]| FunctionPrototype {
        name: "f".to_string(),
        arguments: names
            .iter()
            .map(|name| VariableDefinition { name: name.to_string(), location: nowhere() })
            .collect(),
        location: nowhere(),
    };
    assert_eq!(prototype(&[]).format(), "f()");
    assert_eq!(prototype(&["a"]).format(), "f(a)");
    assert_eq!(prototype(&["a", "b", "c"]).format(), "f(a, b, c)");
}

#[test]
fn a_definition_is_written_with_its_body_in_a_block() {
    let definition = FunctionDefinition {
        prototype: FunctionPrototype {
            name: "f".to_string(),
            arguments: vec![],
            location: nowhere(),
        },
        body: number(1),
        location: nowhere(),
    };
    assert_eq!(definition.format(), "f() {\n\t1\n}");
    assert_eq!(Statement::FunctionDefinition(definition).format(), "f() {\n\t1\n}");
}

#[test]
fn formats_a_program() {
    let ast = parse("f(a,b){ if a { g(a, 1) } else { b } } main(){}");
    assert_eq!(
        ast.format(),
        "f(a, b) {\n\tif a {\n\t\tg(a, 1)\n\t} else {\n\t\tb\n\t}\n}\n\nmain() {\n\n}"
    );
    assert_eq!(AST { statements: vec![] }.format(), "");
}

fn without_locations(expression: &mut Expression) {
    match expression {
        Expression::FunctionCall(call) => {
            call.location = nowhere();
            for parameter in call.parameters.iter_mut() {
                without_locations(parameter);
            }
        }
        Expression::Branch(branch) => {
            branch.location = nowhere();
            without_locations(&mut branch.condition);
            without_locations(&mut branch.then_branch);
            without_locations(&mut branch.else_branch);
        }
        Expression::Variable(variable) => variable.location = nowhere(),
        Expression::Literal(Literal::Number(number)) => number.location = nowhere(),
        Expression::Empty => {}
    }
}

fn bare(mut ast: AST) -> AST {
    for statement in ast.statements.iter_mut() {
        let Statement::FunctionDefinition(definition) = statement;
        definition.location = nowhere();
        definition.prototype.location = nowhere();
        for argument in definition.prototype.arguments.iter_mut() {
            argument.location = nowhere();
        }
        without_locations(&mut definition.body);
    }
    ast
}

#[test]
fn a_formatted_program_parses_as_the_program() {
    let sources = [
        "",
        "main(){}",
        "main(){ print(add(2,3)) }",
        "f(a){ a } main(){ print(f(7)) }",
        "main(){ if equal(2,2) { print(1) } else { print(0) } }",
        "f(a b c){ g(a b,c,) } # comment\n\tif(x){ x }\n5(+7){ 007 }",
        "f(){ g(if a { b } else { c } if d { if e { f(1) } }, else) }",
        "main(){ if if a { b } else { c } { d } }",
        "f(){ 4294967296 }",
        "\u{e9}(\u{fc}){ \u{fc} }",
        "f(a\r){ a\r }",
        "f\r(){ g\r(b\r, c\r) }",
        "f(){ if a\r { b\rc } else { g(d\r) } }",
        "f(){ if a { \rb } }",
    ];
    for source in sources {
        let ast = parse(source);
        let text = ast.format();
        let again = parse(&text);
        assert_eq!(bare(again), bare(ast));
        assert_eq!(parse(&text).format(), text);
    }
}

#[test]
fn a_carriage_return_at_the_end_of_a_variable_that_fills_a_block_is_lost() {
    for source in ["f() { if a { b\r } }", "f() { if a { b } else { c\r } }"] {
        let ast = parse(source);
        let again = parse(&ast.format());
        assert_ne!(bare(again), bare(ast));
    }
}
