use idem::ast::AST;
use idem::interpretation::Interpreter;
use idem::interpretation::RuntimeIssue;
use idem::lexing::Lexer;
use idem::parsing::Parser;
use idem::validation::validate;

fn parse(source: &str) -> AST {
    let tokens = Lexer::new("a.id").tokenize(source.chars());
    let mut parser = Parser::new(&tokens);
    parser.parse().unwrap()
}

fn reports(source: &str) -> Vec<String> {
    validate(&parse(source)).iter().map(|report| report.to_string()).collect()
}

#[test]
fn a_valid_program_gives_no_report() {
    assert_eq!(reports("f(a){ a } main(){ print(f(7)) }"), Vec::<String>::new());
    assert_eq!(reports("main(){ print(add(2,3)) }"), Vec::<String>::new());
    assert_eq!(reports(""), Vec::<String>::new());
    assert_eq!(reports("main(){}"), Vec::<String>::new());
}

#[test]
fn an_unknown_function_gives_one_report() {
    let found = validate(&parse("main(){ g() }"));
    assert_eq!(found.len(), 1);
    assert_eq!(found[0].issue, "unknown function \"g\"");
    assert_eq!(found[0].location.line, 1);
    assert_eq!(found[0].location.column, 9);
    assert_eq!(found[0].to_string(), "a.id:1:9 unknown function \"g\"");
}

#[test]
fn a_parameter_that_appears_twice_gives_one_report() {
    assert_eq!(
        reports("f(a, a){ a } main(){ f(1, 2) }"),
        vec!["a.id:1:7 several \"f\"'s arguments have the name \"a\""]
    );
}

#[test]
fn a_parameter_that_appears_three_times_gives_two_reports() {
    assert_eq!(
        reports("f(a, a, a){ a } main(){ f(1, 2, 3) }"),
        vec![
            "a.id:1:7 several \"f\"'s arguments have the name \"a\"",
            "a.id:1:10 several \"f\"'s arguments have the name \"a\"",
        ]
    );
}

#[test]
fn a_call_of_a_defined_function_with_the_wrong_count_gives_one_report() {
    assert_eq!(
        reports("f(a){ a } main(){ f(1, 2) }"),
        vec!["a.id:1:19 function \"f\" accepts 1 arguments but received 2 parameters"]
    );
    assert_eq!(
        reports("f(a){ a } main(){ f() }"),
        vec!["a.id:1:19 function \"f\" accepts 1 arguments but received 0 parameters"]
    );
}

#[test]
fn a_call_of_a_native_function_with_the_wrong_count_gives_one_report() {
    assert_eq!(
        reports("main(){ add(1) }"),
        vec!["a.id:1:9 function \"add\" accepts 2 arguments but received 1 parameters"]
    );
    assert_eq!(
        reports("main(){ print(1, 2, 3) }"),
        vec!["a.id:1:9 function \"print\" accepts 1 arguments but received 3 parameters"]
    );
    assert_eq!(
        reports("main(){ not() }"),
        vec!["a.id:1:9 function \"not\" accepts 1 arguments but received 0 parameters"]
    );
}

#[test]
fn each_native_function_has_its_number_of_parameters() {
    assert_eq!(
        reports(
            "main(){ print(or(and(1, 2), xor(equal(1, 2), add(sub(3, 1), multiply(not(1), 2))))) }"
        ),
        Vec::<String>::new()
    );
}

#[test]
fn the_parameters_of_a_wrong_call_are_checked_too() {
    assert_eq!(
        reports("main(){ g(h(), x) }"),
        vec![
            "a.id:1:9 unknown function \"g\"",
            "a.id:1:11 unknown function \"h\"",
            "a.id:1:17 unknown variable \"x\"",
        ]
    );
}

#[test]
fn an_unknown_variable_gives_one_report() {
    assert_eq!(reports("main(){ print(x) }"), vec!["a.id:1:16 unknown variable \"x\""]);
}

#[test]
fn a_parameter_that_is_never_read_gives_one_report() {
    assert_eq!(
        reports("f(a, b){ a } main(){ f(1, 2) }"),
        vec!["a.id:1:7 variable \"b\" is never used"]
    );
    assert_eq!(
        reports("f(a, b){} main(){ f(1, 2) }"),
        vec!["a.id:1:4 variable \"a\" is never used", "a.id:1:7 variable \"b\" is never used"]
    );
}

#[test]
fn a_duplicate_of_an_unused_parameter_is_reported_once_as_unused() {
    assert_eq!(
        reports("f(a, a){} main(){ f(1, 2) }"),
        vec![
            "a.id:1:7 several \"f\"'s arguments have the name \"a\"",
            "a.id:1:4 variable \"a\" is never used",
        ]
    );
}

#[test]
fn a_function_that_is_never_called_gives_one_report() {
    assert_eq!(
        reports("f(){ 1 } main(){ print(1) }"),
        vec!["a.id:1:1 function \"f\" is never used"]
    );
}

#[test]
fn main_need_not_be_called() {
    assert_eq!(reports("main(){ 1 }"), Vec::<String>::new());
}

#[test]
fn a_function_that_only_calls_itself_is_used() {
    assert_eq!(reports("f(){ f() } main(){ 1 }"), Vec::<String>::new());
}

#[test]
fn a_function_called_from_an_unused_function_is_used() {
    assert_eq!(
        reports("f(){ 1 } g(){ f() } main(){ 1 }"),
        vec!["a.id:1:10 function \"g\" is never used"]
    );
}

#[test]
fn the_last_definition_of_a_name_is_the_one_in_force() {
    assert_eq!(
        reports("f(a){ a } f(a, b){ add(a, b) } main(){ f(1) }"),
        vec!["a.id:1:40 function \"f\" accepts 2 arguments but received 1 parameters"]
    );
    assert_eq!(
        reports("f(){ 1 } f(){ 2 } main(){ 1 }"),
        vec!["a.id:1:10 function \"f\" is never used"]
    );
}

#[test]
fn a_definition_comes_before_a_native_function_of_its_name() {
    assert_eq!(
        reports("add(a){ a } main(){ add(1, 2) }"),
        vec!["a.id:1:21 function \"add\" accepts 1 arguments but received 2 parameters"]
    );
}

#[test]
fn a_branch_is_checked_in_all_its_parts() {
    assert_eq!(
        reports("main(){ if x { y } else { z } }"),
        vec![
            "a.id:1:14 unknown variable \"x\"",
            "a.id:1:18 unknown variable \"y\"",
            "a.id:1:29 unknown variable \"z\"",
        ]
    );
}

#[test]
fn reports_come_function_by_function_then_unused_functions() {
    assert_eq!(
        reports("f(a, a, b){ g(c) }\nh(d){ 1 }\nmain(){ 1 }"),
        vec![
            "a.id:1:7 several \"f\"'s arguments have the name \"a\"",
            "a.id:1:13 unknown function \"g\"",
            "a.id:1:16 unknown variable \"c\"",
            "a.id:1:4 variable \"a\" is never used",
            "a.id:1:10 variable \"b\" is never used",
            "a.id:2:4 variable \"d\" is never used",
            "a.id:1:1 function \"f\" is never used",
            "a.id:2:1 function \"h\" is never used",
        ]
    );
}

#[test]
fn a_program_without_reports_runs_without_the_errors_that_validation_rules_out() {
    let sources = [
        "main(){ print(add(2,3)) }",
        "f(a){ a } main(){ print(f(7)) }",
        "f(a, b){ if equal(a, b) { print(a) } else { f(add(a, 1), b) } } main(){ f(0, 5) }",
        "f(a){ f(a) } main(){ f(1) }",
        "main(){ print(sub(1, 2)) }",
        "main(){ print(print(1)) }",
        "f(){ 1 }",
        "main(a){ a }",
    ];
    for source in sources {
        let ast = parse(source);
        if validate(&ast).is_empty() {
            if let Err(error) = Interpreter::new().run(&ast) {
                assert_ne!(error.issue, RuntimeIssue::UnboundVariable);
                assert_ne!(error.issue, RuntimeIssue::UnknownFunction);
                assert_ne!(error.issue, RuntimeIssue::ArityMismatch);
            }
        }
    }
}

#[test]
fn a_definition_that_takes_the_name_of_a_native_function_escapes_validation() {
    let ast = parse("add(a){ a } main(){ print(add(1)) }");
    assert_eq!(validate(&ast).len(), 0);
    let error = Interpreter::new().run(&ast).unwrap_err();
    assert_eq!(error.issue, RuntimeIssue::ArityMismatch);
}
