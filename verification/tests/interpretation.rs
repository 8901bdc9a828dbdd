use idem::ast::AST;
use idem::interpretation::render_output;
use idem::interpretation::CallObserver;
use idem::interpretation::Interpreter;
use idem::interpretation::RuntimeError;
use idem::interpretation::RuntimeIssue;
use idem::interpretation::Unobserved;
use idem::interpretation::DEFAULT_DEPTH;
use idem::lexing::Lexer;
use idem::lexing::Location;
use idem::parsing::Parser;

fn parse(source: &str) -> AST {
    let tokens = Lexer::new("a.id").tokenize(source.chars());
    let mut parser = Parser::new(&tokens);
    parser.parse().unwrap()
}

fn run(source: &str) -> (Result<(), RuntimeError>, Vec<u32>) {
    let ast = parse(source);
    let mut interpreter = Interpreter::new();
    let result = interpreter.run(&ast);
    (result, interpreter.output)
}

fn output_of(source: &str) -> Vec<u32> {
    let (result, output) = run(source);
    result.unwrap();
    output
}

fn failure_of(source: &str) -> (RuntimeIssue, String, Vec<u32>) {
    let (result, output) = run(source);
    let error = result.unwrap_err();
    (error.issue, error.name, output)
}

#[test]
fn prints_a_sum() {
    assert_eq!(output_of("main(){ print(add(2,3)) }"), vec![5]);
    assert_eq!(render_output(&output_of("main(){ print(add(2,3)) }")), "5\n");
}

#[test]
fn branches_on_equality() {
    assert_eq!(output_of("main(){ if equal(2,2) { print(1) } else { print(0) } }"), vec![1]);
}

#[test]
fn calls_a_defined_function() {
    assert_eq!(output_of("f(a){ a } main(){ print(f(7)) }"), vec![7]);
}

#[test]
fn complements_over_32_bits() {
    assert_eq!(output_of("main(){ print(not(0)) }"), vec![4294967295]);
    assert_eq!(render_output(&output_of("main(){ print(not(0)) }")), "4294967295\n");
}

#[test]
fn fails_without_main() {
    let ast = parse("f(){ print(1) }");
    let mut interpreter = Interpreter::new();
    let error = interpreter.run(&ast).unwrap_err();
    assert_eq!(error.issue, RuntimeIssue::MissingMain);
    assert_eq!(error.name, "main");
    assert_eq!(error.location, Location { path: String::new(), line: 0, column: 0 });
    assert_eq!(interpreter.output, Vec::<u32>::new());
    assert_eq!(error.message(), "no main function");
    assert!(interpreter.run(&parse("main(){ print(3) }")).is_ok());
    assert_eq!(interpreter.output, vec![3]);
}

#[test]
fn fails_where_main_takes_parameters() {
    let (result, output) = run("main(a){ print(a) }");
    let error = result.unwrap_err();
    assert_eq!(error.issue, RuntimeIssue::MainTakesParameters);
    assert_eq!(error.location, Location { path: "a.id".to_string(), line: 1, column: 1 });
    assert_eq!(error.to_string(), "a.id:1:1 function \"main\" takes parameters");
    assert_eq!(output, Vec::<u32>::new());
}

#[test]
fn an_empty_main_writes_nothing() {
    assert_eq!(output_of("main(){}"), Vec::<u32>::new());
    assert_eq!(output_of("main(){ 5 }"), Vec::<u32>::new());
}

#[test]
fn only_the_value_one_selects_the_first_expression() {
    assert_eq!(output_of("main(){ if 1 { print(10) } else { print(20) } }"), vec![10]);
    assert_eq!(output_of("main(){ if 0 { print(10) } else { print(20) } }"), vec![20]);
    assert_eq!(output_of("main(){ if 2 { print(10) } else { print(20) } }"), vec![20]);
    assert_eq!(output_of("main(){ if 4294967295 { print(10) } else { print(20) } }"), vec![20]);
    assert_eq!(output_of("main(){ if not(4294967294) { print(10) } else { print(20) } }"), vec![10]);
}

#[test]
fn a_branch_without_else_gives_no_value_when_not_taken() {
    assert_eq!(output_of("main(){ if 0 { print(10) } }"), Vec::<u32>::new());
    assert_eq!(output_of("main(){ if 1 { print(10) } }"), vec![10]);
    assert_eq!(
        failure_of("main(){ print(if 0 { 10 }) }"),
        (RuntimeIssue::MissingValue, "print".to_string(), vec![])
    );
}

#[test]
fn a_branch_gives_the_value_of_the_chosen_expression() {
    assert_eq!(output_of("main(){ print(if 1 { 10 } else { 20 }) }"), vec![10]);
    assert_eq!(output_of("main(){ print(if 5 { 10 } else { 20 }) }"), vec![20]);
}

#[test]
fn a_condition_without_value_is_an_error() {
    assert_eq!(
        failure_of("main(){ if print(1) { print(2) } }"),
        (RuntimeIssue::MissingValue, "if".to_string(), vec![1])
    );
}

#[test]
fn native_functions_compute() {
    assert_eq!(output_of("main(){ print(or(12, 10)) }"), vec![14]);
    assert_eq!(output_of("main(){ print(and(12, 10)) }"), vec![8]);
    assert_eq!(output_of("main(){ print(xor(12, 10)) }"), vec![6]);
    assert_eq!(output_of("main(){ print(xor(12, 12)) }"), vec![0]);
    assert_eq!(output_of("main(){ print(not(12)) }"), vec![4294967283]);
    assert_eq!(output_of("main(){ print(equal(12, 10)) }"), vec![0]);
    assert_eq!(output_of("main(){ print(equal(12, 12)) }"), vec![1]);
    assert_eq!(output_of("main(){ print(add(12, 10)) }"), vec![22]);
    assert_eq!(output_of("main(){ print(sub(12, 10)) }"), vec![2]);
    assert_eq!(output_of("main(){ print(multiply(12, 10)) }"), vec![120]);
}

#[test]
fn print_gives_no_value() {
    assert_eq!(
        failure_of("main(){ print(print(1)) }"),
        (RuntimeIssue::MissingValue, "print".to_string(), vec![1])
    );
}

#[test]
fn parameters_are_evaluated_from_left_to_right() {
    assert_eq!(
        failure_of("main(){ add(print(1), print(2)) }"),
        (RuntimeIssue::MissingValue, "add".to_string(), vec![1])
    );
    let ast = parse("one(){ 1 } two(){ 2 } main(){ print(sub(add(one(), two()), one())) }");
    let mut interpreter = Interpreter::new();
    let mut recorder = Recorder { events: vec![] };
    interpreter.run_observed(&ast, &mut recorder).unwrap();
    assert_eq!(interpreter.output, vec![2]);
    assert_eq!(
        recorder.events,
        vec![
            "+print", "+sub", "+add", "+one", "-one", "+two", "-two", "-add", "+one", "-one",
            "-sub", "-print"
        ]
    );
}

#[test]
fn parameters_are_evaluated_before_the_function_is_looked_up() {
    assert_eq!(
        failure_of("main(){ g(print(1)) }"),
        (RuntimeIssue::MissingValue, "g".to_string(), vec![1])
    );
    assert_eq!(
        failure_of("main(){ g(h(1)) }"),
        (RuntimeIssue::UnknownFunction, "h".to_string(), vec![])
    );
    assert_eq!(
        failure_of("main(){ add(1, 2, x) }"),
        (RuntimeIssue::UnboundVariable, "x".to_string(), vec![])
    );
}

#[test]
fn a_failure_keeps_what_was_written_before_it() {
    assert_eq!(
        failure_of("f(a){ print(a) } main(){ add(f(7), 1) }"),
        (RuntimeIssue::MissingValue, "add".to_string(), vec![7])
    );
}

#[test]
fn a_frame_holds_the_parameters_of_its_function_only() {
    assert_eq!(
        failure_of("f(a){ g() } g(){ a } main(){ print(f(7)) }"),
        (RuntimeIssue::UnboundVariable, "a".to_string(), vec![])
    );
    assert_eq!(output_of("f(a){ g(5) } g(a){ a } main(){ print(f(7)) }"), vec![5]);
}

#[test]
fn an_unbound_variable_is_an_error() {
    let (result, _) = run("main(){ print(x) }");
    let error = result.unwrap_err();
    assert_eq!(error.issue, RuntimeIssue::UnboundVariable);
    assert_eq!(error.to_string(), "a.id:1:16 unknown variable \"x\"");
}

#[test]
fn an_unknown_function_is_an_error() {
    let (result, _) = run("main(){ g(1) }");
    let error = result.unwrap_err();
    assert_eq!(error.issue, RuntimeIssue::UnknownFunction);
    assert_eq!(error.to_string(), "a.id:1:9 unknown function \"g\"");
}

#[test]
fn a_wrong_number_of_parameters_is_an_error() {
    assert_eq!(
        failure_of("main(){ print(add(1)) }"),
        (RuntimeIssue::ArityMismatch, "add".to_string(), vec![])
    );
    assert_eq!(
        failure_of("main(){ print(1, 2) }"),
        (RuntimeIssue::ArityMismatch, "print".to_string(), vec![])
    );
    assert_eq!(
        failure_of("main(){ not() }"),
        (RuntimeIssue::ArityMismatch, "not".to_string(), vec![])
    );
    assert_eq!(
        failure_of("f(a){ a } main(){ f(1, 2) }"),
        (RuntimeIssue::ArityMismatch, "f".to_string(), vec![])
    );
    assert_eq!(
        failure_of("f(a){ a } main(){ f() }"),
        (RuntimeIssue::ArityMismatch, "f".to_string(), vec![])
    );
    let (result, _) = run("f(a){ a } main(){ f() }");
    assert_eq!(
        result.unwrap_err().to_string(),
        "a.id:1:19 function \"f\" received the wrong number of parameters"
    );
}

#[test]
fn a_result_out_of_range_is_an_error() {
    assert_eq!(output_of("main(){ print(add(4294967295, 0)) }"), vec![4294967295]);
    assert_eq!(
        failure_of("main(){ print(add(4294967295, 1)) }"),
        (RuntimeIssue::Overflow, "add".to_string(), vec![])
    );
    assert_eq!(output_of("main(){ print(sub(5, 5)) }"), vec![0]);
    assert_eq!(
        failure_of("main(){ print(sub(5, 6)) }"),
        (RuntimeIssue::Overflow, "sub".to_string(), vec![])
    );
    assert_eq!(output_of("main(){ print(multiply(65535, 65537)) }"), vec![4294967295]);
    assert_eq!(
        failure_of("main(){ print(multiply(65536, 65536)) }"),
        (RuntimeIssue::Overflow, "multiply".to_string(), vec![])
    );
    let (result, _) = run("main(){ print(sub(5, 6)) }");
    assert_eq!(result.unwrap_err().to_string(), "a.id:1:15 the result of \"sub\" is out of range");
}

#[test]
fn a_native_function_comes_before_a_definition_of_its_name() {
    assert_eq!(output_of("add(a, b){ 0 } main(){ print(add(2, 3)) }"), vec![5]);
}

#[test]
fn the_last_definition_of_a_name_is_called() {
    assert_eq!(output_of("f(){ 1 } f(){ 2 } main(){ print(f()) }"), vec![2]);
}

#[test]
fn the_first_main_is_run() {
    assert_eq!(output_of("main(){ print(1) } main(){ print(2) }"), vec![1]);
}

#[test]
fn the_last_parameter_of_a_name_is_read() {
    assert_eq!(output_of("f(a, a){ a } main(){ print(f(1, 2)) }"), vec![2]);
}

#[test]
fn recursion_computes() {
    assert_eq!(
        output_of(
            "sum(n){ if equal(n, 0) { 0 } else { add(n, sum(sub(n, 1))) } } main(){ print(sum(100)) }"
        ),
        vec![5050]
    );
}

#[test]
fn recursion_to_the_depth_of_the_interpreter_is_allowed() {
    let ast = parse("down(n){ if equal(n, 0) { 0 } else { down(sub(n, 1)) } } main(){ print(down(3)) }");
    let mut interpreter = Interpreter::new();
    interpreter.depth = 4;
    assert!(interpreter.run(&ast).is_ok());
    assert_eq!(interpreter.output, vec![0]);
    interpreter.depth = 3;
    let error = interpreter.run(&ast).unwrap_err();
    assert_eq!(error.issue, RuntimeIssue::DepthExceeded);
    assert_eq!(error.name, "down");
    assert_eq!(interpreter.depth, 3);
}

#[test]
fn stops_endless_recursion() {
    assert_eq!(
        failure_of("f(a){ f(a) } main(){ print(f(1)) }"),
        (RuntimeIssue::DepthExceeded, "f".to_string(), vec![])
    );
    let (result, output) = run("f(a){ f(a) } main(){ print(f(1)) }");
    assert_eq!(
        result.unwrap_err().to_string(),
        "a.id:1:7 the call of \"f\" is nested too deep"
    );
    assert_eq!(output, vec![]);
}

#[test]
fn no_call_is_allowed_at_depth_zero() {
    let mut interpreter = Interpreter::new();
    interpreter.depth = 0;
    assert!(interpreter.run(&parse("main(){ print(add(1, 2)) }")).is_ok());
    assert_eq!(interpreter.output, vec![3]);
    let error = interpreter.run(&parse("f(){ 1 } main(){ print(f()) }")).unwrap_err();
    assert_eq!(error.issue, RuntimeIssue::DepthExceeded);
}

#[test]
fn a_new_interpreter_has_written_nothing() {
    let interpreter = Interpreter::new();
    assert_eq!(interpreter.output, Vec::<u32>::new());
    assert_eq!(interpreter.depth, DEFAULT_DEPTH);
}

#[test]
fn the_output_of_several_runs_accumulates() {
    let ast = parse("main(){ print(7) }");
    let mut interpreter = Interpreter::new();
    interpreter.run(&ast).unwrap();
    interpreter.run(&ast).unwrap();
    assert_eq!(interpreter.output, vec![7, 7]);
}

#[test]
fn two_runs_of_a_program_write_the_same() {
    let source = "f(a){ if equal(a, 3) { print(a) } else { f(add(a, 1)) } } main(){ f(0) }";
    assert_eq!(output_of(source), vec![3]);
    assert_eq!(output_of(source), output_of(source));
    assert_eq!(run("main(){ add(print(1), g()) }"), run("main(){ add(print(1), g()) }"));
}

#[test]
fn render_output_writes_a_value_per_line() {
    assert_eq!(render_output(&vec![]), "");
    assert_eq!(render_output(&vec![0]), "0\n");
    assert_eq!(render_output(&vec![5, 4294967295, 10]), "5\n4294967295\n10\n");
}

struct Recorder {
    events: Vec<String>,
}

impl CallObserver for Recorder {
    fn enter(&mut self, name: &str) {
        self.events.push(format!("+{}", name));
    }

    fn leave(&mut self, name: &str) {
        self.events.push(format!("-{}", name));
    }
}

#[test]
fn an_observer_is_told_of_each_call() {
    let ast = parse("f(a){ a } main(){ print(f(add(1, 2))) }");
    let mut interpreter = Interpreter::new();
    let mut recorder = Recorder { events: vec![] };
    interpreter.run_observed(&ast, &mut recorder).unwrap();
    assert_eq!(interpreter.output, vec![3]);
    assert_eq!(recorder.events, vec!["+print", "+f", "+add", "-add", "-f", "-print"]);
}

#[test]
fn an_observer_is_told_of_the_end_of_a_call_that_fails() {
    let ast = parse("main(){ print(g(1)) }");
    let mut interpreter = Interpreter::new();
    let mut recorder = Recorder { events: vec![] };
    assert!(interpreter.run_observed(&ast, &mut recorder).is_err());
    assert_eq!(recorder.events, vec!["+print", "+g", "-g", "-print"]);
}

#[test]
fn an_observer_does_not_change_the_run() {
    let ast = parse("f(a){ print(a) } main(){ f(1) }");
    let mut observed = Interpreter::new();
    let mut plain = Interpreter::new();
    observed.run_observed(&ast, &mut Unobserved).unwrap();
    plain.run(&ast).unwrap();
    assert_eq!(observed.output, vec![1]);
    assert_eq!(observed.output, plain.output);
    assert_eq!(observed.depth, plain.depth);
}

#[test]
fn the_messages_of_errors_name_what_is_concerned() {
    let error = |issue| RuntimeError {
        issue,
        name: "x".to_string(),
        location: Location { path: "p".to_string(), line: 1, column: 2 },
    };
    assert_eq!(error(RuntimeIssue::MissingMain).message(), "no main function");
    assert_eq!(
        error(RuntimeIssue::MainTakesParameters).message(),
        "function \"main\" takes parameters"
    );
    assert_eq!(error(RuntimeIssue::UnboundVariable).message(), "unknown variable \"x\"");
    assert_eq!(error(RuntimeIssue::UnknownFunction).message(), "unknown function \"x\"");
    assert_eq!(
        error(RuntimeIssue::ArityMismatch).message(),
        "function \"x\" received the wrong number of parameters"
    );
    assert_eq!(error(RuntimeIssue::MissingValue).message(), "\"x\" received no value");
    assert_eq!(error(RuntimeIssue::Overflow).message(), "the result of \"x\" is out of range");
    assert_eq!(
        error(RuntimeIssue::DepthExceeded).message(),
        "the call of \"x\" is nested too deep"
    );
    assert_eq!(error(RuntimeIssue::MissingValue).to_string(), "p:1:2 \"x\" received no value");
}

#[test]
fn a_span_observer_does_not_change_the_run() {
    let ast = parse("f(a){ print(a) } main(){ f(add(1, 2)) }");
    let mut interpreter = Interpreter::new();
    let mut observer = idem::tracing::SpanObserver::new();
    interpreter.run_observed(&ast, &mut observer).unwrap();
    assert_eq!(interpreter.output, vec![3]);
    assert!(interpreter.run_observed(&parse("main(){ g() }"), &mut observer).is_err());
    assert_eq!(interpreter.output, vec![3]);
}
