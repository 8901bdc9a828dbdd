use idem::ast::VariableDefinition;
use idem::lexing::Location;
use idem::native::add;
use idem::native::and;
use idem::native::equal;
use idem::native::multiply;
use idem::native::native_functions_map;
use idem::native::not;
use idem::native::or;
use idem::native::print;
use idem::native::sub;
use idem::native::xor;
use idem::native::Native;

#[test]
fn or_is_bitwise() {
    assert_eq!(or(0b1100, 0b1010), 0b1110);
    assert_eq!(or(0, 0), 0);
    assert_eq!(or(u32::MAX, 1), u32::MAX);
}

#[test]
fn and_is_bitwise() {
    assert_eq!(and(0b1100, 0b1010), 0b1000);
    assert_eq!(and(u32::MAX, 5), 5);
    assert_eq!(and(1, 2), 0);
}

#[test]
fn xor_is_bitwise() {
    assert_eq!(xor(0b1100, 0b1010), 0b0110);
    assert_eq!(xor(7, 7), 0);
    assert_eq!(xor(0, 9), 9);
}

#[test]
fn not_is_the_complement_over_32_bits() {
    assert_eq!(not(0), 4294967295);
    assert_eq!(not(4294967295), 0);
    assert_eq!(not(1), 4294967294);
}

#[test]
fn equal_gives_one_or_zero() {
    assert_eq!(equal(2, 2), 1);
    assert_eq!(equal(2, 3), 0);
    assert_eq!(equal(0, 0), 1);
}

#[test]
fn add_sub_multiply_compute() {
    assert_eq!(add(2, 3), 5);
    assert_eq!(add(4294967295, 0), 4294967295);
    assert_eq!(sub(5, 3), 2);
    assert_eq!(sub(3, 3), 0);
    assert_eq!(multiply(6, 7), 42);
    assert_eq!(multiply(65535, 65537), 4294967295);
}

#[test]
fn print_appends_to_the_output() {
    let mut output = vec![1];
    print(5, &mut output);
    print(0, &mut output);
    assert_eq!(output, vec![1, 5, 0]);
}

fn parameter(name: &str) -> VariableDefinition {
    VariableDefinition {
        name: name.to_string(),
        location: Location { path: String::new(), line: 0, column: 0 },
    }
}

#[test]
fn the_table_holds_the_nine_native_functions() {
    let table = native_functions_map();
    let names: Vec<&str> = table.iter().map(|function| function.name.as_str()).collect();
    assert_eq!(names, vec!["or", "and", "xor", "not", "equal", "add", "sub", "multiply", "print"]);
    for function in &table {
        if function.name == "not" || function.name == "print" {
            assert_eq!(function.arguments, vec![parameter("a")]);
        } else {
            assert_eq!(function.arguments, vec![parameter("a"), parameter("b")]);
        }
    }
}

#[test]
fn native_functions_are_found_by_name() {
    assert_eq!(Native::find("or"), Some(Native::Or));
    assert_eq!(Native::find("and"), Some(Native::And));
    assert_eq!(Native::find("xor"), Some(Native::Xor));
    assert_eq!(Native::find("not"), Some(Native::Not));
    assert_eq!(Native::find("equal"), Some(Native::Equal));
    assert_eq!(Native::find("add"), Some(Native::Add));
    assert_eq!(Native::find("sub"), Some(Native::Sub));
    assert_eq!(Native::find("multiply"), Some(Native::Multiply));
    assert_eq!(Native::find("print"), Some(Native::Print));
    assert_eq!(Native::find("main"), None);
    assert_eq!(Native::find(""), None);
    assert_eq!(Native::find("Or"), None);
}

#[test]
fn the_table_agrees_with_the_functions_on_the_number_of_parameters() {
    for function in native_functions_map() {
        let native = Native::find(&function.name).unwrap();
        assert_eq!(native.parameters(), function.arguments.len());
    }
}
