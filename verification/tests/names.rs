use idem::ast::Statement;
use idem::ast::VariableDefinition;
use idem::lexing::Lexer;
use idem::lexing::Location;
use idem::names::find_first_function;
use idem::names::find_function;
use idem::names::find_last_parameter;
use idem::names::find_native;
use idem::names::find_parameter;
use idem::native::native_functions_map;
use idem::parsing::Parser;

fn statements(source: &str) -> Vec<Statement> {
    let tokens = Lexer::new("a.id").tokenize(source.chars());
    let mut parser = Parser::new(&tokens);
    parser.parse().unwrap().statements
}

fn parameters(names: &[&str]) -> Vec<VariableDefinition> {
    names
        .iter()
        .map(|name| VariableDefinition {
            name: name.to_string(),
            location: Location { path: String::new(), line: 0, column: 0 },
        })
        .collect()
}

#[test]
fn a_function_is_found_at_its_last_and_at_its_first_definition() {
    let program = statements("f(){} g(){} f(){} h(){}");
    assert_eq!(find_function(&program, "f"), Some(2));
    assert_eq!(find_first_function(&program, "f"), Some(0));
    assert_eq!(find_function(&program, "g"), Some(1));
    assert_eq!(find_first_function(&program, "g"), Some(1));
    assert_eq!(find_function(&program, "h"), Some(3));
    assert_eq!(find_function(&program, "x"), None);
    assert_eq!(find_first_function(&program, "x"), None);
    assert_eq!(find_function(&vec![], "f"), None);
    assert_eq!(find_first_function(&vec![], "f"), None);
}

#[test]
fn a_parameter_is_found_at_its_first_and_at_its_last_declaration() {
    let list = parameters(&["a", "b", "a", "c"]);
    assert_eq!(find_parameter(&list, "a"), Some(0));
    assert_eq!(find_last_parameter(&list, "a"), Some(2));
    assert_eq!(find_parameter(&list, "c"), Some(3));
    assert_eq!(find_last_parameter(&list, "b"), Some(1));
    assert_eq!(find_parameter(&list, "d"), None);
    assert_eq!(find_last_parameter(&list, "d"), None);
    assert_eq!(find_parameter(&vec![], "a"), None);
}

#[test]
fn a_native_function_is_found_in_its_table() {
    let table = native_functions_map();
    assert_eq!(find_native(&table, "or"), Some(0));
    assert_eq!(find_native(&table, "not"), Some(3));
    assert_eq!(find_native(&table, "print"), Some(8));
    assert_eq!(find_native(&table, "main"), None);
}
